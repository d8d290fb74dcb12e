//! The collision and damage passes of a tick.
//!
//! Each pass judges every pair against the positions at its start. A ship
//! killed during a pass still stands as a target until the pass ends: what
//! strikes it is spent, but it takes no more damage and is destroyed once.

use vstd::prelude::*;

use crate::arena::Arena;
use crate::config::{CONTACT_RADIUS, SHOT_HIT_RADIUS};
use crate::entity::{
    lemma_projectiles_sorted_push, lemma_projectiles_sorted_remove, lemma_rockets_sorted_push,
    lemma_rockets_sorted_remove, player_placed, projectiles_precede, projectiles_sorted,
    projectiles_wf, rockets_placed, rockets_precede, rockets_sorted, rockets_wf, Player, Projectile,
    Rocket,
};
use crate::geometry::closer_than;

verus! {

// ---------------------------------------------------------------------------
// Projectiles that intercept each other
/// Two shots of opposite sides, strictly closer than the hit radius.
pub open spec fn opposed(p: Projectile, q: Projectile) -> bool {
    p.is_player_projectile != q.is_player_projectile && closer_than(
        p.pos,
        q.pos,
        SHOT_HIT_RADIUS as int,
    )
}

/// Some shot of `all` is opposed to `p`.
pub open spec fn has_opponent(all: Seq<Projectile>, p: Projectile) -> bool {
    exists|j: int| 0 <= j < all.len() && opposed(p, #[trigger] all[j])
}

/// The shots of `s`, in order, without those that a shot of `all` opposes.
pub open spec fn unopposed(all: Seq<Projectile>, s: Seq<Projectile>) -> Seq<Projectile>
    decreases s.len(),
{
    if s.len() == 0 {
        s
    } else if has_opponent(all, s[0]) {
        unopposed(all, s.drop_first())
    } else {
        seq![s[0]] + unopposed(all, s.drop_first())
    }
}

/// The shots left after interception: of every pair of opposite shots in
/// range both are destroyed; the other shots stay, in order.
pub open spec fn cancelled(s: Seq<Projectile>) -> Seq<Projectile> {
    unopposed(s, s)
}

proof fn lemma_unopposed(all: Seq<Projectile>, s: Seq<Projectile>)
    ensures
        forall|j: int|
            0 <= j < s.len() && !has_opponent(all, s[j]) ==> unopposed(all, s).contains(
                #[trigger] s[j],
            ),
        forall|x: Projectile| #[trigger]
            unopposed(all, s).contains(x) ==> s.contains(x) && !has_opponent(all, x),
    decreases s.len(),
{
    if s.len() > 0 {
        let t = s.drop_first();
        let r = unopposed(all, t);
        lemma_unopposed(all, t);
        assert forall|j: int|
            0 <= j < s.len() && !has_opponent(all, s[j]) implies unopposed(all, s).contains(
            #[trigger] s[j],
        ) by {
            if j == 0 {
                assert(unopposed(all, s)[0] == s[0]);
            } else {
                assert(t[j - 1] == s[j]);
                assert(r.contains(t[j - 1]));
                if !has_opponent(all, s[0]) {
                    let x = choose|x: int| 0 <= x < r.len() && r[x] == t[j - 1];
                    assert(unopposed(all, s)[x + 1] == r[x]);
                }
            }
        }
        assert forall|x: Projectile| #[trigger]
            unopposed(all, s).contains(x) implies s.contains(x) && !has_opponent(all, x) by {
            let u = unopposed(all, s);
            let k = choose|k: int| 0 <= k < u.len() && u[k] == x;
            if !has_opponent(all, s[0]) && k == 0 {
                assert(s[0] == x);
            } else {
                let k2 = if has_opponent(all, s[0]) { k } else { k - 1 };
                assert(r[k2] == x);
                assert(r.contains(x));
                let i = choose|i: int| 0 <= i < t.len() && t[i] == x;
                assert(s[i + 1] == x);
            }
        }
    }
}

/// Interception keeps exactly the shots that no shot of the other side is in
/// range of: each such shot of `s` stays, and every shot left is one of them.
pub proof fn lemma_cancelled_exact(s: Seq<Projectile>)
    ensures
        forall|j: int|
            0 <= j < s.len() && !has_opponent(s, s[j]) ==> cancelled(s).contains(#[trigger] s[j]),
        forall|x: Projectile| #[trigger]
            cancelled(s).contains(x) ==> s.contains(x) && !has_opponent(s, x),
{
    lemma_unopposed(s, s);
}

fn is_opposed(p: &Projectile, q: &Projectile, Ghost(a): Ghost<Arena>) -> (r: bool)
    requires
        a.wf(),
        a.holds(p.pos),
        a.holds(q.pos),
    ensures
        r == opposed(*p, *q),
{
    p.is_player_projectile != q.is_player_projectile && p.pos.is_within(&q.pos, SHOT_HIT_RADIUS)
}

/// Index of the first shot of `v` that opposes `p`; `v.len()` if none.
fn find_opposed(v: &Vec<Projectile>, p: &Projectile, Ghost(a): Ghost<Arena>, Ghost(
    next_id,
): Ghost<int>) -> (k: usize)
    requires
        a.wf(),
        a.holds(p.pos),
        projectiles_wf(v@, a, next_id),
    ensures
        k <= v.len(),
        forall|j: int| 0 <= j < k ==> !opposed(*p, #[trigger] v@[j]),
        k < v.len() ==> opposed(*p, v@[k as int]),
{
    let mut k: usize = 0;
    while k < v.len()
        invariant
            a.wf(),
            a.holds(p.pos),
            projectiles_wf(v@, a, next_id),
            k <= v.len(),
            forall|j: int| 0 <= j < k ==> !opposed(*p, #[trigger] v@[j]),
        decreases v.len() - k,
    {
        assert(v@[k as int].wf(a, next_id));
        if is_opposed(p, &v[k], Ghost(a)) {
            return k;
        }
        k = k + 1;
    }
    k
}

/// Destroys every shot that a shot of the other side is in range of.
pub fn player_rocket_projectile_collision(
    shots: &mut Vec<Projectile>,
    Ghost(a): Ghost<Arena>,
    Ghost(next_id): Ghost<int>,
)
    requires
        a.wf(),
        projectiles_wf(old(shots)@, a, next_id),
        projectiles_sorted(old(shots)@),
    ensures
        final(shots)@ == cancelled(old(shots)@),
        projectiles_wf(final(shots)@, a, next_id),
        projectiles_sorted(final(shots)@),
{
    let ghost s = shots@;
    let len = shots.len();
    let mut out: Vec<Projectile> = Vec::new();
    let mut i: usize = 0;
    assert(s.subrange(0, len as int) =~= s);
    assert(out@ + unopposed(s, s) =~= unopposed(s, s));
    while i < len
        invariant
            a.wf(),
            shots@ == s,
            len == s.len(),
            i <= len,
            projectiles_wf(s, a, next_id),
            projectiles_wf(out@, a, next_id),
            projectiles_sorted(s),
            projectiles_sorted(out@),
            projectiles_precede(out@, s, i as int),
            cancelled(s) == out@ + unopposed(s, s.subrange(i as int, len as int)),
        decreases len - i,
    {
        let p = shots[i];
        let ghost t = s.subrange(i as int, len as int);
        assert(t[0] == p);
        assert(t.drop_first() =~= s.subrange(i + 1, len as int));
        assert(s[i as int].wf(a, next_id));
        let k = find_opposed(shots, &p, Ghost(a), Ghost(next_id));
        if k < len {
            assert(opposed(p, s[k as int]));
            assert(has_opponent(s, p));
        } else {
            assert(!has_opponent(s, p));
            assert(out@.push(p) + unopposed(s, s.subrange(i + 1, len as int)) =~= out@ + (seq![p]
                + unopposed(s, s.subrange(i + 1, len as int))));
            proof {
                lemma_projectiles_sorted_push(out@, s, i as int, p);
            }
            out.push(p);
        }
        i = i + 1;
    }
    assert(s.subrange(len as int, len as int) =~= Seq::<Projectile>::empty());
    assert(out@ + Seq::<Projectile>::empty() =~= out@);
    *shots = out;
}

// ---------------------------------------------------------------------------
// The player's shots against the rockets
/// Rocket `r` is strictly closer to shot `p` than the hit radius.
pub open spec fn in_shot_range(r: Rocket, p: Projectile) -> bool {
    closer_than(r.pos, p.pos, SHOT_HIT_RADIUS as int)
}

/// Index of the first rocket of `s` in range of shot `p`; `s.len()` if none.
pub open spec fn first_struck(s: Seq<Rocket>, p: Projectile) -> nat
    decreases s.len(),
{
    if s.len() == 0 {
        0
    } else if in_shot_range(s[0], p) {
        0
    } else {
        1 + first_struck(s.drop_first(), p)
    }
}

/// The rockets after a shot strikes rocket `k`.
pub open spec fn hit_rocket(s: Seq<Rocket>, k: int) -> Seq<Rocket> {
    s.update(k, s[k].struck())
}

/// The player's shots against the rockets, in the shots' order: a player's
/// shot in range of a rocket strikes the first rocket in range and is spent,
/// whether that rocket still had health or was killed earlier in the pass;
/// other shots stay. The result: the rockets, dead ones included, and the
/// shots left.
pub open spec fn player_shots(rockets: Seq<Rocket>, shots: Seq<Projectile>) -> (
    Seq<Rocket>,
    Seq<Projectile>,
)
    decreases shots.len(),
{
    if shots.len() == 0 {
        (rockets, shots)
    } else {
        let p = shots[0];
        let k = first_struck(rockets, p);
        if p.is_player_projectile && k < rockets.len() {
            player_shots(hit_rocket(rockets, k as int), shots.drop_first())
        } else {
            let r = player_shots(rockets, shots.drop_first());
            (r.0, seq![p] + r.1)
        }
    }
}

/// The rockets of `s` with health left, in order.
pub open spec fn survivors(s: Seq<Rocket>) -> Seq<Rocket>
    decreases s.len(),
{
    if s.len() == 0 {
        s
    } else if s[0].health.current_health == 0 {
        survivors(s.drop_first())
    } else {
        seq![s[0]] + survivors(s.drop_first())
    }
}

proof fn lemma_first_struck(s: Seq<Rocket>, p: Projectile, k: int)
    requires
        0 <= k <= s.len(),
        forall|j: int| 0 <= j < k ==> !in_shot_range(#[trigger] s[j], p),
        k < s.len() ==> in_shot_range(s[k], p),
    ensures
        first_struck(s, p) == k,
    decreases k,
{
    if k > 0 {
        assert(!in_shot_range(s[0], p));
        let t = s.drop_first();
        assert forall|j: int| 0 <= j < k - 1 implies !in_shot_range(#[trigger] t[j], p) by {
            assert(t[j] == s[j + 1]);
        }
        lemma_first_struck(t, p, k - 1);
    }
}

/// Index of the first rocket in range of shot `p`; `v.len()` if none.
fn find_struck(v: &Vec<Rocket>, p: &Projectile, Ghost(a): Ghost<Arena>, Ghost(next_id): Ghost<int>) -> (k: usize)
    requires
        a.wf(),
        a.holds(p.pos),
        rockets_placed(v@, a, next_id),
    ensures
        k <= v.len(),
        forall|j: int| 0 <= j < k ==> !in_shot_range(#[trigger] v@[j], *p),
        k < v.len() ==> in_shot_range(v@[k as int], *p),
{
    let mut k: usize = 0;
    while k < v.len()
        invariant
            a.wf(),
            a.holds(p.pos),
            rockets_placed(v@, a, next_id),
            k <= v.len(),
            forall|j: int| 0 <= j < k ==> !in_shot_range(#[trigger] v@[j], *p),
        decreases v.len() - k,
    {
        assert(v@[k as int].placed(a, next_id));
        if v[k].pos.is_within(&p.pos, SHOT_HIT_RADIUS) {
            return k;
        }
        k = k + 1;
    }
    k
}

/// Removes the rockets with no health left.
fn remove_dead(v: &mut Vec<Rocket>, Ghost(a): Ghost<Arena>, Ghost(n): Ghost<int>)
    requires
        rockets_placed(old(v)@, a, n),
        rockets_sorted(old(v)@),
    ensures
        rockets_sorted(final(v)@),
        final(v)@ == survivors(old(v)@),
        final(v)@.len() <= old(v)@.len(),
        rockets_wf(final(v)@, a, n),
{
    let ghost s = v@;
    let len = v.len();
    let mut out: Vec<Rocket> = Vec::new();
    let mut i: usize = 0;
    assert(s.subrange(0, len as int) =~= s);
    assert(out@ + survivors(s) =~= survivors(s));
    while i < len
        invariant
            v@ == s,
            len == s.len(),
            i <= len,
            out@.len() <= i,
            rockets_placed(s, a, n),
            rockets_wf(out@, a, n),
            rockets_sorted(s),
            rockets_sorted(out@),
            rockets_precede(out@, s, i as int),
            survivors(s) == out@ + survivors(s.subrange(i as int, len as int)),
        decreases len - i,
    {
        let r = v[i];
        assert(s.subrange(i as int, len as int).drop_first() =~= s.subrange(i + 1, len as int));
        assert(s[i as int].placed(a, n));
        if r.health.current_health != 0 {
            assert(out@.push(r) + survivors(s.subrange(i + 1, len as int)) =~= out@ + (seq![r]
                + survivors(s.subrange(i + 1, len as int))));
            proof {
                lemma_rockets_sorted_push(out@, s, i as int, r);
            }
            out.push(r);
        }
        i = i + 1;
    }
    assert(s.subrange(len as int, len as int) =~= Seq::<Rocket>::empty());
    assert(out@ + Seq::<Rocket>::empty() =~= out@);
    *v = out;
}

/// Resolves the player's shots against the rockets, then removes the rockets
/// killed; returns how many were killed.
pub fn player_projectile_rocket_collision(
    rockets: &mut Vec<Rocket>,
    shots: &mut Vec<Projectile>,
    Ghost(a): Ghost<Arena>,
    Ghost(next_id): Ghost<int>,
    Ghost(shot_id): Ghost<int>,
) -> (kills: usize)
    requires
        a.wf(),
        rockets_wf(old(rockets)@, a, next_id),
        projectiles_wf(old(shots)@, a, shot_id),
        rockets_sorted(old(rockets)@),
        projectiles_sorted(old(shots)@),
    ensures
        rockets_sorted(final(rockets)@),
        projectiles_sorted(final(shots)@),
        final(rockets)@ == survivors(player_shots(old(rockets)@, old(shots)@).0),
        final(shots)@ == player_shots(old(rockets)@, old(shots)@).1,
        kills == old(rockets)@.len() - final(rockets)@.len(),
        rockets_wf(final(rockets)@, a, next_id),
        projectiles_wf(final(shots)@, a, shot_id),
{
    let ghost r0 = rockets@;
    let ghost s0 = shots@;
    let n0 = rockets.len();
    let mut i: usize = 0;
    assert(shots@.subrange(0, shots@.len() as int) =~= shots@);
    assert(shots@.subrange(0, 0) + player_shots(r0, s0).1 =~= player_shots(r0, s0).1);
    assert forall|j: int| 0 <= j < r0.len() implies #[trigger] r0[j].placed(a, next_id) by {
        assert(r0[j].wf(a, next_id));
    }
    while i < shots.len()
        invariant
            a.wf(),
            i <= shots.len(),
            rockets@.len() == n0 == r0.len(),
            rockets_placed(rockets@, a, next_id),
            projectiles_wf(shots@, a, shot_id),
            rockets_sorted(rockets@),
            projectiles_sorted(shots@),
            player_shots(r0, s0).0 == player_shots(
                rockets@,
                shots@.subrange(i as int, shots@.len() as int),
            ).0,
            player_shots(r0, s0).1 == shots@.subrange(0, i as int) + player_shots(
                rockets@,
                shots@.subrange(i as int, shots@.len() as int),
            ).1,
        decreases shots.len() - i,
    {
        let ghost s = shots@;
        let ghost rs = rockets@;
        let ghost n = s.len() as int;
        let ghost tail = s.subrange(i as int, n);
        let p = shots[i];
        assert(tail[0] == p);
        assert(tail.drop_first() =~= s.subrange(i + 1, n));
        assert(s[i as int].wf(a, shot_id));
        let mut k: usize = rockets.len();
        if p.is_player_projectile {
            k = find_struck(rockets, &p, Ghost(a), Ghost(next_id));
            proof {
                lemma_first_struck(rs, p, k as int);
            }
        }
        if k < rockets.len() {
            let mut r = rockets[k];
            assert(rs[k as int].placed(a, next_id));
            if r.health.current_health != 0 {
                r.health.take_hit();
            }
            rockets.set(k, r);
            assert(rockets@ =~= hit_rocket(rs, k as int));
            assert forall|x: int, y: int| 0 <= x < y < rockets@.len() implies #[trigger] rockets@[x].health.id
                < #[trigger] rockets@[y].id by {
                assert(rs[x].health.id < rs[y].id);
            }
            proof {
                lemma_projectiles_sorted_remove(s, i as int);
            }
            shots.remove(i);
            assert(shots@.subrange(0, i as int) =~= s.subrange(0, i as int));
            assert(shots@.subrange(i as int, shots@.len() as int) =~= s.subrange(i + 1, n));
            assert forall|j: int| 0 <= j < rockets@.len() implies #[trigger] rockets@[j].placed(
                a,
                next_id,
            ) by {
                if j != k {
                    assert(rockets@[j] == rs[j]);
                }
            }
            assert forall|j: int| 0 <= j < shots@.len() implies #[trigger] shots@[j].wf(
                a,
                shot_id,
            ) by {
                if j < i {
                    assert(shots@[j] == s[j]);
                } else {
                    assert(shots@[j] == s[j + 1]);
                }
            }
        } else {
            assert(s.subrange(0, i + 1) =~= s.subrange(0, i as int).push(p));
            let ghost r = player_shots(rs, s.subrange(i + 1, n));
            assert(s.subrange(0, i as int) + (seq![p] + r.1) =~= s.subrange(0, i + 1) + r.1);
            i = i + 1;
        }
    }
    assert(shots@.subrange(0, i as int) =~= shots@);
    assert(shots@.subrange(i as int, shots@.len() as int) =~= Seq::<Projectile>::empty());
    assert(shots@ + Seq::<Projectile>::empty() =~= shots@);
    remove_dead(rockets, Ghost(a), Ghost(next_id));
    n0 - rockets.len()
}

proof fn lemma_first_struck_in_range(s: Seq<Rocket>, p: Projectile)
    ensures
        first_struck(s, p) <= s.len(),
        first_struck(s, p) < s.len() ==> in_shot_range(s[first_struck(s, p) as int], p),
    decreases s.len(),
{
    if s.len() > 0 && !in_shot_range(s[0], p) {
        lemma_first_struck_in_range(s.drop_first(), p);
    }
}

/// A pass of the player's shots keeps every rocket in its place with its
/// identifier, position and arming; it changes a rocket's health only where
/// some player's shot is in range of that rocket; and every rocket's shot
/// stays.
pub proof fn lemma_player_shots_touch_only_struck(rockets: Seq<Rocket>, shots: Seq<Projectile>)
    ensures
        player_shots(rockets, shots).0.len() == rockets.len(),
        forall|k: int|
            0 <= k < rockets.len() ==> (#[trigger] player_shots(rockets, shots).0[k]) == (Rocket {
                health: player_shots(rockets, shots).0[k].health,
                ..rockets[k]
            }),
        forall|k: int|
            0 <= k < rockets.len() && (#[trigger] player_shots(rockets, shots).0[k]).health
                != rockets[k].health ==> exists|j: int|
                0 <= j < shots.len() && shots[j].is_player_projectile && in_shot_range(
                    rockets[k],
                    #[trigger] shots[j],
                ),
        forall|j: int|
            0 <= j < shots.len() && !shots[j].is_player_projectile ==> player_shots(
                rockets,
                shots,
            ).1.contains(#[trigger] shots[j]),
    decreases shots.len(),
{
    if shots.len() > 0 {
        let p = shots[0];
        let t = shots.drop_first();
        let k0 = first_struck(rockets, p);
        lemma_first_struck_in_range(rockets, p);
        let out = player_shots(rockets, shots);
        if p.is_player_projectile && k0 < rockets.len() {
            let r1 = hit_rocket(rockets, k0 as int);
            lemma_player_shots_touch_only_struck(r1, t);
            assert(out == player_shots(r1, t));
            assert forall|k: int|
                0 <= k < rockets.len() && (#[trigger] out.0[k]).health != rockets[k].health implies exists|j: int|
                0 <= j < shots.len() && shots[j].is_player_projectile && in_shot_range(
                    rockets[k],
                    #[trigger] shots[j],
                ) by {
                if k == k0 && r1[k].health != rockets[k].health {
                    assert(shots[0] == p);
                } else {
                    assert(out.0[k].health != r1[k].health);
                    assert(r1[k].pos == rockets[k].pos);
                    let j = choose|j: int|
                        0 <= j < t.len() && t[j].is_player_projectile && in_shot_range(
                            r1[k],
                            #[trigger] t[j],
                        );
                    assert(shots[j + 1] == t[j]);
                }
            }
            assert forall|j: int|
                0 <= j < shots.len() && !shots[j].is_player_projectile implies out.1.contains(
                #[trigger] shots[j],
            ) by {
                assert(j != 0);
                assert(t[j - 1] == shots[j]);
            }
        } else {
            let r = player_shots(rockets, t);
            lemma_player_shots_touch_only_struck(rockets, t);
            assert(out.0 == r.0);
            assert(out.1 == seq![p] + r.1);
            assert forall|k: int|
                0 <= k < rockets.len() && (#[trigger] out.0[k]).health != rockets[k].health implies exists|j: int|
                0 <= j < shots.len() && shots[j].is_player_projectile && in_shot_range(
                    rockets[k],
                    #[trigger] shots[j],
                ) by {
                let j = choose|j: int|
                    0 <= j < t.len() && t[j].is_player_projectile && in_shot_range(
                        rockets[k],
                        #[trigger] t[j],
                    );
                assert(shots[j + 1] == t[j]);
            }
            assert forall|j: int|
                0 <= j < shots.len() && !shots[j].is_player_projectile implies out.1.contains(
                #[trigger] shots[j],
            ) by {
                if j == 0 {
                    assert(out.1[0] == p);
                } else {
                    assert(t[j - 1] == shots[j]);
                    assert(r.1.contains(t[j - 1]));
                    let x = choose|x: int| 0 <= x < r.1.len() && r.1[x] == t[j - 1];
                    assert(out.1[x + 1] == r.1[x]);
                }
            }
        }
    }
}

// ---------------------------------------------------------------------------
// The rockets' shots against the player
/// Shot `p` of a rocket is strictly closer to the player than the hit radius.
pub open spec fn hits_player(q: Player, p: Projectile) -> bool {
    !p.is_player_projectile && closer_than(q.pos, p.pos, SHOT_HIT_RADIUS as int)
}

/// The rockets' shots against the player, in the shots' order: each rocket's
/// shot in range of the player is spent and strikes it, also once the player
/// was killed earlier in the pass; other shots stay.
pub open spec fn rocket_shots(pl: Option<Player>, shots: Seq<Projectile>) -> (
    Option<Player>,
    Seq<Projectile>,
)
    decreases shots.len(),
{
    if shots.len() == 0 {
        (pl, shots)
    } else {
        let p = shots[0];
        if pl.is_some() && hits_player(pl.unwrap(), p) {
            rocket_shots(Some(pl.unwrap().struck()), shots.drop_first())
        } else {
            let r = rocket_shots(pl, shots.drop_first());
            (r.0, seq![p] + r.1)
        }
    }
}

/// Strikes the player: one point of health less while it has any.
fn damage_player(player: &mut Option<Player>, Ghost(a): Ghost<Arena>, Ghost(next_id): Ghost<int>)
    requires
        old(player).is_some(),
        player_placed(*old(player), a, next_id),
    ensures
        *final(player) == Some(old(player).unwrap().struck()),
        player_placed(*final(player), a, next_id),
{
    let mut q = player.unwrap();
    if q.health.current_health != 0 {
        q.health.take_hit();
    }
    *player = Some(q);
}

/// Resolves the rockets' shots against the player. A player killed here
/// stays, with no health, until the collision step ends.
pub fn rocket_projectile_player_collision(
    player: &mut Option<Player>,
    shots: &mut Vec<Projectile>,
    Ghost(a): Ghost<Arena>,
    Ghost(next_id): Ghost<int>,
    Ghost(shot_id): Ghost<int>,
)
    requires
        a.wf(),
        player_placed(*old(player), a, next_id),
        projectiles_wf(old(shots)@, a, shot_id),
        projectiles_sorted(old(shots)@),
    ensures
        (*final(player), final(shots)@) == rocket_shots(*old(player), old(shots)@),
        player_placed(*final(player), a, next_id),
        projectiles_wf(final(shots)@, a, shot_id),
        projectiles_sorted(final(shots)@),
{
    let ghost p0 = *player;
    let ghost s0 = shots@;
    let mut i: usize = 0;
    assert(shots@.subrange(0, shots@.len() as int) =~= shots@);
    assert(shots@.subrange(0, 0) + rocket_shots(p0, s0).1 =~= rocket_shots(p0, s0).1);
    while i < shots.len()
        invariant
            a.wf(),
            i <= shots.len(),
            player_placed(*player, a, next_id),
            projectiles_wf(shots@, a, shot_id),
            projectiles_sorted(shots@),
            rocket_shots(p0, s0).0 == rocket_shots(
                *player,
                shots@.subrange(i as int, shots@.len() as int),
            ).0,
            rocket_shots(p0, s0).1 == shots@.subrange(0, i as int) + rocket_shots(
                *player,
                shots@.subrange(i as int, shots@.len() as int),
            ).1,
        decreases shots.len() - i,
    {
        let ghost s = shots@;
        let ghost n = s.len() as int;
        let ghost tail = s.subrange(i as int, n);
        let p = shots[i];
        assert(tail[0] == p);
        assert(tail.drop_first() =~= s.subrange(i + 1, n));
        assert(s[i as int].wf(a, shot_id));
        let hit: bool = match player {
            Some(q) => !p.is_player_projectile && q.pos.is_within(&p.pos, SHOT_HIT_RADIUS),
            None => false,
        };
        if hit {
            damage_player(player, Ghost(a), Ghost(next_id));
            proof {
                lemma_projectiles_sorted_remove(s, i as int);
            }
            shots.remove(i);
            assert(shots@.subrange(0, i as int) =~= s.subrange(0, i as int));
            assert(shots@.subrange(i as int, shots@.len() as int) =~= s.subrange(i + 1, n));
            assert forall|j: int| 0 <= j < shots@.len() implies #[trigger] shots@[j].wf(
                a,
                shot_id,
            ) by {
                if j < i {
                    assert(shots@[j] == s[j]);
                } else {
                    assert(shots@[j] == s[j + 1]);
                }
            }
        } else {
            assert(s.subrange(0, i + 1) =~= s.subrange(0, i as int).push(p));
            let ghost r = rocket_shots(*player, s.subrange(i + 1, n));
            assert(s.subrange(0, i as int) + (seq![p] + r.1) =~= s.subrange(0, i + 1) + r.1);
            i = i + 1;
        }
    }
    assert(shots@.subrange(0, i as int) =~= shots@);
    assert(shots@.subrange(i as int, shots@.len() as int) =~= Seq::<Projectile>::empty());
    assert(shots@ + Seq::<Projectile>::empty() =~= shots@);
}

// ---------------------------------------------------------------------------
// Rockets that ram the player
/// Rocket `r` is strictly closer to the player than the contact radius.
pub open spec fn rams(q: Player, r: Rocket) -> bool {
    closer_than(r.pos, q.pos, CONTACT_RADIUS as int)
}

/// The rockets against the player, in the rockets' order: every rocket in
/// contact with the player is destroyed outright and strikes it, also once
/// the player was killed earlier in the collision step; other rockets stay.
/// A rocket lost this way was not destroyed by damage, and is not counted
/// as a kill.
pub open spec fn rammed(pl: Option<Player>, rockets: Seq<Rocket>) -> (Option<Player>, Seq<Rocket>)
    decreases rockets.len(),
{
    if rockets.len() == 0 {
        (pl, rockets)
    } else {
        let r = rockets[0];
        if pl.is_some() && rams(pl.unwrap(), r) {
            rammed(Some(pl.unwrap().struck()), rockets.drop_first())
        } else {
            let t = rammed(pl, rockets.drop_first());
            (t.0, seq![r] + t.1)
        }
    }
}

/// Resolves rockets ramming the player. A player killed here stays, with no
/// health, until the collision step ends.
pub fn rocket_player_collision(
    player: &mut Option<Player>,
    rockets: &mut Vec<Rocket>,
    Ghost(a): Ghost<Arena>,
    Ghost(next_id): Ghost<int>,
)
    requires
        a.wf(),
        player_placed(*old(player), a, next_id),
        rockets_wf(old(rockets)@, a, next_id),
        rockets_sorted(old(rockets)@),
    ensures
        rockets_sorted(final(rockets)@),
        (*final(player), final(rockets)@) == rammed(*old(player), old(rockets)@),
        player_placed(*final(player), a, next_id),
        rockets_wf(final(rockets)@, a, next_id),
{
    let ghost p0 = *player;
    let ghost s0 = rockets@;
    let mut i: usize = 0;
    assert(rockets@.subrange(0, rockets@.len() as int) =~= rockets@);
    assert(rockets@.subrange(0, 0) + rammed(p0, s0).1 =~= rammed(p0, s0).1);
    while i < rockets.len()
        invariant
            a.wf(),
            i <= rockets.len(),
            player_placed(*player, a, next_id),
            rockets_wf(rockets@, a, next_id),
            rockets_sorted(rockets@),
            rammed(p0, s0).0 == rammed(
                *player,
                rockets@.subrange(i as int, rockets@.len() as int),
            ).0,
            rammed(p0, s0).1 == rockets@.subrange(0, i as int) + rammed(
                *player,
                rockets@.subrange(i as int, rockets@.len() as int),
            ).1,
        decreases rockets.len() - i,
    {
        let ghost s = rockets@;
        let ghost n = s.len() as int;
        let ghost tail = s.subrange(i as int, n);
        let r = rockets[i];
        assert(tail[0] == r);
        assert(tail.drop_first() =~= s.subrange(i + 1, n));
        assert(s[i as int].wf(a, next_id));
        let hit: bool = match player {
            Some(q) => r.pos.is_within(&q.pos, CONTACT_RADIUS),
            None => false,
        };
        if hit {
            damage_player(player, Ghost(a), Ghost(next_id));
            proof {
                lemma_rockets_sorted_remove(s, i as int);
            }
            rockets.remove(i);
            assert(rockets@.subrange(0, i as int) =~= s.subrange(0, i as int));
            assert(rockets@.subrange(i as int, rockets@.len() as int) =~= s.subrange(i + 1, n));
            assert forall|j: int| 0 <= j < rockets@.len() implies #[trigger] rockets@[j].wf(
                a,
                next_id,
            ) by {
                if j < i {
                    assert(rockets@[j] == s[j]);
                } else {
                    assert(rockets@[j] == s[j + 1]);
                }
            }
        } else {
            assert(s.subrange(0, i + 1) =~= s.subrange(0, i as int).push(r));
            let ghost t = rammed(*player, s.subrange(i + 1, n));
            assert(s.subrange(0, i as int) + (seq![r] + t.1) =~= s.subrange(0, i + 1) + t.1);
            i = i + 1;
        }
    }
    assert(rockets@.subrange(0, i as int) =~= rockets@);
    assert(rockets@.subrange(i as int, rockets@.len() as int) =~= Seq::<Rocket>::empty());
    assert(rockets@ + Seq::<Rocket>::empty() =~= rockets@);
}

} // verus!
