//! Chained damage: a hit on one enemy arcs on to the nearest other enemy,
//! hop by hop, until its arcs are used up or no enemy is in reach.
//!
//! An event that carries `arcs` arcs strikes its target and, if more than one
//! arc is left, hands the rest on to the nearest enemy within `ARC_RADIUS` of
//! the target, the target itself excepted. Only the enemy just struck is
//! excepted, so a chain may come back to an enemy it struck two hops before.
//! Dead enemies stay in the list until they are swept, so a chain may strike
//! them too.

use vstd::prelude::*;
use crate::targeting::{
    get_enemies_in_cone, get_nearest_enemy_in_radius, nearest, targets, Enemy, HalfAngle,
    Position, Target, TargetFilter,
};

verus! {

/// How far an arc reaches from the enemy it leaves.
pub const ARC_RADIUS: u32 = 150;

/// The arcs that a shot of the wand carries.
pub const WAND_ARCS: u32 = 3;

/// How far a shot of the wand reaches from the player.
pub const WAND_RANGE: u32 = 300;

/// A hit that is due: `amount` damage to the enemy `target`, with `arcs`
/// arcs left including this one.
#[derive(Clone, Copy, Debug, PartialEq, Eq, Structural)]
pub struct DamageEvent {
    pub target: u64,
    pub amount: u32,
    pub arcs: u32,
}

/// A hit that has struck `from_target` and may arc on.
#[derive(Clone, Copy, Debug, PartialEq, Eq, Structural)]
pub struct SecondaryArc {
    pub from_target: u64,
    pub damage_event: DamageEvent,
}

/// Whether `i` is the position of the first target with the id `id`.
pub open spec fn is_first_with_id(ts: Seq<Target>, id: u64, i: int) -> bool {
    &&& 0 <= i < ts.len()
    &&& ts[i].id == id
    &&& forall|j: int| 0 <= j < i ==> (#[trigger] ts[j]).id != id
}

/// The position of the first target with the id `id`, if there is one.
pub open spec fn find_target(ts: Seq<Target>, id: u64) -> Option<int> {
    if exists|i: int| is_first_with_id(ts, id, i) {
        Some(choose|i: int| is_first_with_id(ts, id, i))
    } else {
        None
    }
}

/// The enemy `e` after a hit of `amount`. The damage taken stops at the
/// largest value it can hold.
pub open spec fn hit(e: Enemy, amount: u32) -> Enemy {
    Enemy {
        damage_taken: if e.damage_taken + amount > u128::MAX {
            u128::MAX
        } else {
            (e.damage_taken + amount) as u128
        },
        ..e
    }
}

/// The enemies after `event` struck: its target is hit, if it is among them.
pub open spec fn damaged(es: Seq<Enemy>, event: DamageEvent) -> Seq<Enemy> {
    match find_target(targets(es), event.target) {
        Some(at) => es.update(at, hit(es[at], event.amount)),
        None => es,
    }
}

/// The enemies after every event of `events` struck, in order.
pub open spec fn damaged_by_all(es: Seq<Enemy>, events: Seq<DamageEvent>) -> Seq<Enemy>
    decreases events.len(),
{
    if events.len() == 0 {
        es
    } else {
        damaged(damaged_by_all(es, events.drop_last()), events.last())
    }
}

/// The event that follows a hit: none if the enemy struck is gone, if no arc
/// is left beyond the one that struck, or if no other enemy is in reach.
pub open spec fn next_event(ts: Seq<Target>, arc: SecondaryArc) -> Option<DamageEvent> {
    match find_target(ts, arc.damage_event.target) {
        Some(at) => if arc.damage_event.arcs <= 1 {
            None
        } else {
            match nearest(
                ts,
                ts[at].position,
                TargetFilter::Radius { radius: ARC_RADIUS, exclude: arc.from_target },
            ) {
                Some(next) => Some(
                    DamageEvent {
                        target: ts[next].id,
                        amount: arc.damage_event.amount,
                        arcs: (arc.damage_event.arcs - 1) as u32,
                    },
                ),
                None => None,
            }
        },
        None => None,
    }
}

/// The events that strike when `event` is processed, in order: `event`
/// itself if its target exists, then the events that follow it.
pub open spec fn chain(ts: Seq<Target>, event: DamageEvent) -> Seq<DamageEvent>
    decreases event.arcs,
{
    if find_target(ts, event.target).is_none() {
        Seq::empty()
    } else {
        match next_event(ts, SecondaryArc { from_target: event.target, damage_event: event }) {
            Some(next) => if next.arcs < event.arcs {
                seq![event] + chain(ts, next)
            } else {
                seq![event]
            },
            None => seq![event],
        }
    }
}

/// The most events that a chain can hold: one for each arc, and one for an
/// event that carries no arc at all.
pub open spec fn chain_limit(arcs: u32) -> nat {
    if arcs == 0 {
        1
    } else {
        arcs as nat
    }
}

/// At most one position is that of the first target with a given id.
pub proof fn lemma_first_with_id_unique(ts: Seq<Target>, id: u64, a: int, b: int)
    requires
        is_first_with_id(ts, id, a),
        is_first_with_id(ts, id, b),
    ensures
        a == b,
{
}

/// Every target can be found by its id.
pub proof fn lemma_find_present(ts: Seq<Target>, at: int)
    requires
        0 <= at < ts.len(),
    ensures
        find_target(ts, ts[at].id).is_some(),
    decreases at,
{
    if exists|j: int| 0 <= j < at && (#[trigger] ts[j]).id == ts[at].id {
        let j = choose|j: int| 0 <= j < at && (#[trigger] ts[j]).id == ts[at].id;
        lemma_find_present(ts, j);
    } else {
        assert(is_first_with_id(ts, ts[at].id, at));
    }
}

/// A hit changes neither who the enemies are nor where they stand.
pub proof fn lemma_damage_keeps_targets(es: Seq<Enemy>, event: DamageEvent)
    ensures
        targets(damaged(es, event)) == targets(es),
{
    assert(targets(damaged(es, event)) =~= targets(es));
}

/// A chain holds at most one event for each arc. Each event carries the
/// amount of the first and one arc less than the event before it.
pub proof fn lemma_chain_bounded(ts: Seq<Target>, event: DamageEvent)
    ensures
        chain(ts, event).len() <= chain_limit(event.arcs),
        forall|k: int|
            0 <= k < chain(ts, event).len() ==> {
                &&& (#[trigger] chain(ts, event)[k]).arcs == event.arcs - k
                &&& chain(ts, event)[k].amount == event.amount
            },
    decreases event.arcs,
{
    if find_target(ts, event.target).is_some() {
        match next_event(ts, SecondaryArc { from_target: event.target, damage_event: event }) {
            Some(next) => {
                lemma_chain_bounded(ts, next);
                let rest = chain(ts, next);
                assert forall|k: int| 0 <= k < chain(ts, event).len() implies {
                    &&& (#[trigger] chain(ts, event)[k]).arcs == event.arcs - k
                    &&& chain(ts, event)[k].amount == event.amount
                } by {
                    if k > 0 {
                        assert(chain(ts, event)[k] == rest[k - 1]);
                    }
                }
            },
            None => {},
        }
    }
}

/// Whether the target at position `i` has a target with another id within
/// `ARC_RADIUS`.
pub open spec fn has_neighbour(ts: Seq<Target>, i: int) -> bool {
    exists|j: int|
        0 <= j < ts.len() && (TargetFilter::Radius { radius: ARC_RADIUS, exclude: ts[i].id }).admits(
            ts[i].position,
            #[trigger] ts[j],
        )
}

/// Where every enemy has another enemy in reach, a chain whose target exists
/// holds exactly one event for each arc: three events for three arcs, and no
/// fourth.
pub proof fn lemma_chain_runs_full(ts: Seq<Target>, event: DamageEvent)
    requires
        find_target(ts, event.target).is_some(),
        forall|i: int| 0 <= i < ts.len() ==> #[trigger] has_neighbour(ts, i),
    ensures
        chain(ts, event).len() == chain_limit(event.arcs),
    decreases event.arcs,
{
    let at = find_target(ts, event.target).unwrap();
    assert(is_first_with_id(ts, event.target, at));
    if event.arcs > 1 {
        let filter = TargetFilter::Radius { radius: ARC_RADIUS, exclude: ts[at].id };
        assert(has_neighbour(ts, at));
        crate::targeting::lemma_nearest_exists(ts, ts[at].position, filter);
        let next_at = nearest(ts, ts[at].position, filter).unwrap();
        crate::targeting::lemma_nearest_admitted(ts, ts[at].position, filter);
        let next = DamageEvent {
            target: ts[next_at].id,
            amount: event.amount,
            arcs: (event.arcs - 1) as u32,
        };
        lemma_find_present(ts, next_at);
        lemma_chain_runs_full(ts, next);
    }
}

/// Where no other enemy is in reach of the target, the chain is the one
/// event that strikes the target.
pub proof fn lemma_chain_stops_alone(ts: Seq<Target>, event: DamageEvent)
    requires
        find_target(ts, event.target).is_some(),
        forall|j: int|
            0 <= j < ts.len() ==> !(TargetFilter::Radius {
                radius: ARC_RADIUS,
                exclude: event.target,
            }).admits(ts[find_target(ts, event.target).unwrap()].position, #[trigger] ts[j]),
    ensures
        chain(ts, event) == seq![event],
{
    let at = find_target(ts, event.target).unwrap();
    crate::targeting::lemma_nearest_admitted(
        ts,
        ts[at].position,
        TargetFilter::Radius { radius: ARC_RADIUS, exclude: event.target },
    );
}

/// The position of the first enemy with the id `id`.
pub fn find_enemy(enemies: &Vec<Enemy>, id: u64) -> (found: Option<usize>)
    ensures
        match found {
            Some(i) => find_target(targets(enemies@), id) == Some(i as int),
            None => find_target(targets(enemies@), id).is_none(),
        },
        found.is_none() <==> forall|j: int|
            0 <= j < enemies@.len() ==> (#[trigger] enemies@[j]).id != id,
{
    let ghost ts = targets(enemies@);
    let mut i: usize = 0;
    while i < enemies.len()
        invariant
            i <= enemies@.len(),
            ts == targets(enemies@),
            forall|j: int| 0 <= j < i ==> (#[trigger] ts[j]).id != id,
            forall|j: int| 0 <= j < i ==> (#[trigger] enemies@[j]).id != id,
        decreases enemies@.len() - i,
    {
        assert(ts[i as int] == enemies@[i as int].target());
        if enemies[i].id == id {
            proof {
                assert(is_first_with_id(ts, id, i as int));
                lemma_first_with_id_unique(
                    ts,
                    id,
                    i as int,
                    choose|k: int| is_first_with_id(ts, id, k),
                );
            }
            return Some(i);
        }
        i += 1;
    }
    proof {
        assert forall|k: int| !is_first_with_id(ts, id, k) by {
            if 0 <= k < ts.len() {
                assert(ts[k].id != id);
            }
        }
    }
    None
}

/// Strikes the target of `event`: its damage taken grows by the amount,
/// whatever health it has left. The result says that the hit may arc on. An
/// event whose target is not among the enemies does nothing.
pub fn apply_damage(enemies: &mut Vec<Enemy>, event: &DamageEvent) -> (struck: Option<SecondaryArc>)
    ensures
        final(enemies)@ == damaged(old(enemies)@, *event),
        targets(final(enemies)@) == targets(old(enemies)@),
        struck == if find_target(targets(old(enemies)@), event.target).is_some() {
            Some(SecondaryArc { from_target: event.target, damage_event: *event })
        } else {
            None
        },
{
    proof {
        lemma_damage_keeps_targets(enemies@, *event);
    }
    match find_enemy(enemies, event.target) {
        Some(at) => {
            let before: Enemy = enemies[at];
            let damage_taken: u128 = if before.damage_taken > u128::MAX - event.amount as u128 {
                u128::MAX
            } else {
                before.damage_taken + event.amount as u128
            };
            enemies.set(
                at,
                Enemy {
                    id: before.id,
                    position: before.position,
                    health: before.health,
                    damage: before.damage,
                    damage_taken,
                },
            );
            Some(SecondaryArc { from_target: event.target, damage_event: *event })
        },
        None => None,
    }
}

/// Decides where a hit arcs on to: the nearest enemy within `ARC_RADIUS` of
/// the enemy struck, that enemy excepted, with one arc less.
pub fn secondary_arc(enemies: &Vec<Enemy>, arc: &SecondaryArc) -> (next: Option<DamageEvent>)
    ensures
        next == next_event(targets(enemies@), *arc),
        next.is_some() ==> next.unwrap().arcs + 1 == arc.damage_event.arcs,
{
    match find_enemy(enemies, arc.damage_event.target) {
        Some(at) => {
            if arc.damage_event.arcs <= 1 {
                return None;
            }
            assert(targets(enemies@)[at as int] == enemies@[at as int].target());
            match get_nearest_enemy_in_radius(
                enemies,
                enemies[at].position,
                ARC_RADIUS,
                arc.from_target,
            ) {
                Some(next_at) => {
                    assert(targets(enemies@)[next_at as int] == enemies@[next_at as int].target());
                    Some(
                        DamageEvent {
                            target: enemies[next_at].id,
                            amount: arc.damage_event.amount,
                            arcs: arc.damage_event.arcs - 1,
                        },
                    )
                },
                None => None,
            }
        },
        None => None,
    }
}

/// Processes `primary` and every event that follows from it. The result
/// lists the events that struck, in order, and each of them has dealt its
/// damage.
pub fn propagate(enemies: &mut Vec<Enemy>, primary: DamageEvent) -> (struck: Vec<DamageEvent>)
    ensures
        struck@ == chain(targets(old(enemies)@), primary),
        final(enemies)@ == damaged_by_all(old(enemies)@, struck@),
        targets(final(enemies)@) == targets(old(enemies)@),
        struck@.len() <= chain_limit(primary.arcs),
{
    let ghost ts = targets(enemies@);
    let ghost start = enemies@;
    let mut struck: Vec<DamageEvent> = Vec::new();
    let mut pending: Option<DamageEvent> = Some(primary);
    proof {
        lemma_chain_bounded(ts, primary);
    }
    while pending.is_some()
        invariant
            targets(enemies@) == ts,
            enemies@ == damaged_by_all(start, struck@),
            chain(ts, primary) == struck@ + match pending {
                Some(event) => chain(ts, event),
                None => Seq::empty(),
            },
        decreases
            match pending {
                Some(event) => event.arcs + 1,
                None => 0,
            },
    {
        let event: DamageEvent = pending.unwrap();
        let ghost before = struck@;
        let ghost enemies_before = enemies@;
        match apply_damage(enemies, &event) {
            Some(arc) => {
                struck.push(event);
                pending = secondary_arc(enemies, &arc);
                proof {
                    assert(struck@.drop_last() =~= before);
                    assert(struck@.last() == event);
                    assert(enemies@ == damaged(enemies_before, event));
                    let rest = match pending {
                        Some(next) => chain(ts, next),
                        None => Seq::empty(),
                    };
                    assert(chain(ts, event) =~= seq![event] + rest);
                    assert(struck@ + rest =~= before + (seq![event] + rest));
                }
            },
            None => {
                pending = None;
                proof {
                    assert(chain(ts, event) =~= Seq::<DamageEvent>::empty());
                    assert(enemies@ =~= enemies_before);
                }
            },
        }
    }
    assert(struck@ + Seq::<DamageEvent>::empty() =~= struck@);
    struck
}

/// The enemies of `es` that have health left, in the same order.
pub open spec fn survivors(es: Seq<Enemy>) -> Seq<Enemy>
    decreases es.len(),
{
    if es.len() == 0 {
        es
    } else if es.last().current_health() > 0 {
        survivors(es.drop_last()).push(es.last())
    } else {
        survivors(es.drop_last())
    }
}

/// The ids of the enemies of `es` that have no health left, in the same
/// order.
pub open spec fn fallen(es: Seq<Enemy>) -> Seq<u64>
    decreases es.len(),
{
    if es.len() == 0 {
        Seq::empty()
    } else if es.last().current_health() > 0 {
        fallen(es.drop_last())
    } else {
        fallen(es.drop_last()).push(es.last().id)
    }
}

/// Every enemy either survives a sweep or falls in it.
pub proof fn lemma_sweep_splits(es: Seq<Enemy>)
    ensures
        survivors(es).len() + fallen(es).len() == es.len(),
    decreases es.len(),
{
    if es.len() > 0 {
        lemma_sweep_splits(es.drop_last());
    }
}

/// Sweeps the enemies without health out of the list and returns their ids.
/// Those that are left keep their order.
pub fn despawn_dead_enemies(enemies: &mut Vec<Enemy>) -> (dead: Vec<u64>)
    ensures
        final(enemies)@ == survivors(old(enemies)@),
        dead@ == fallen(old(enemies)@),
{
    let mut alive: Vec<Enemy> = Vec::new();
    let mut dead: Vec<u64> = Vec::new();
    let mut i: usize = 0;
    assert(enemies@.subrange(0, 0) =~= Seq::<Enemy>::empty());
    while i < enemies.len()
        invariant
            i <= enemies@.len(),
            alive@ == survivors(enemies@.subrange(0, i as int)),
            dead@ == fallen(enemies@.subrange(0, i as int)),
        decreases enemies@.len() - i,
    {
        assert(enemies@.subrange(0, i + 1).drop_last() =~= enemies@.subrange(0, i as int));
        if enemies[i].is_dead() {
            dead.push(enemies[i].id);
        } else {
            alive.push(enemies[i]);
        }
        i += 1;
    }
    assert(enemies@.subrange(0, i as int) =~= enemies@);
    *enemies = alive;
    dead
}

/// Decides whether the wand fires. It fires when the cursor is known, the
/// button is held, the wand is ready again and an enemy stands in the cone
/// of a right angle around the aim, within `WAND_RANGE`. The shot strikes the
/// nearest such enemy with `amount` and carries `WAND_ARCS` arcs.
pub fn handle_wand_input(
    player: Position,
    enemies: &Vec<Enemy>,
    cursor: Option<Position>,
    pressed: bool,
    ready: bool,
    amount: u32,
) -> (shot: Option<DamageEvent>)
    ensures
        shot == spec_wand_shot(player, targets(enemies@), cursor, pressed, ready, amount),
{
    match cursor {
        Some(aim) => {
            if !pressed || !ready {
                return None;
            }
            match get_enemies_in_cone(player, enemies, aim, WAND_RANGE, HalfAngle::half_right()) {
                Some(at) => {
                    assert(targets(enemies@)[at as int] == enemies@[at as int].target());
                    Some(DamageEvent { target: enemies[at].id, amount, arcs: WAND_ARCS })
                },
                None => None,
            }
        },
        None => None,
    }
}

/// The shot that the wand fires, if it fires.
pub open spec fn spec_wand_shot(
    player: Position,
    ts: Seq<Target>,
    cursor: Option<Position>,
    pressed: bool,
    ready: bool,
    amount: u32,
) -> Option<DamageEvent> {
    if cursor.is_some() && pressed && ready {
        match nearest(
            ts,
            player,
            TargetFilter::Cone {
                toward: cursor.unwrap(),
                max_distance: WAND_RANGE,
                half_angle: HalfAngle { tan_numerator: 1, tan_denominator: 1 },
            },
        ) {
            Some(at) => Some(DamageEvent { target: ts[at].id, amount, arcs: WAND_ARCS }),
            None => None,
        }
    } else {
        None
    }
}

} // verus!
