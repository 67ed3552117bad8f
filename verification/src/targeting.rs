//! Target acquisition: the nearest enemy inside a cone or inside a circle.
//!
//! Positions are whole world units. Distances are compared by their squares
//! and angles by cross and dot products, so every test is exact. Among
//! targets at the same distance the one that comes first in the list wins.

use vstd::prelude::*;

verus! {

/// A point of the world.
#[derive(Clone, Copy, Debug, PartialEq, Eq, Structural)]
pub struct Position {
    pub x: i32,
    pub y: i32,
}

/// What target acquisition sees of an enemy: who it is and where it stands.
#[derive(Clone, Copy, Debug, PartialEq, Eq, Structural)]
pub struct Target {
    pub id: u64,
    pub position: Position,
}

/// Half the opening angle of a cone, given by its tangent as a ratio. A
/// denominator of zero stands for a right angle, so the cone is a half plane.
#[derive(Clone, Copy, Debug, PartialEq, Eq, Structural)]
pub struct HalfAngle {
    pub tan_numerator: u32,
    pub tan_denominator: u32,
}

/// Which targets a search admits.
#[derive(Clone, Copy, Debug, PartialEq, Eq, Structural)]
pub enum TargetFilter {
    /// Every target within `radius` of the origin, but the one with the id
    /// `exclude`.
    Radius { radius: u32, exclude: u64 },
    /// Every target within `max_distance` of the origin whose direction
    /// deviates from the direction toward `toward` by at most `half_angle`.
    Cone { toward: Position, max_distance: u32, half_angle: HalfAngle },
}

/// An enemy: its id, where it stands, the health and damage it was spawned
/// with, and the damage it has taken since.
#[derive(Clone, Copy, Debug, PartialEq, Eq, Structural)]
pub struct Enemy {
    pub id: u64,
    pub position: Position,
    pub health: u128,
    pub damage: u32,
    pub damage_taken: u128,
}

/// The square of the distance between two points.
pub open spec fn spec_distance_squared(a: Position, b: Position) -> int {
    (a.x - b.x) * (a.x - b.x) + (a.y - b.y) * (a.y - b.y)
}

/// The dot product of the directions from `origin` to `toward` and to `p`.
pub open spec fn spec_dot(origin: Position, toward: Position, p: Position) -> int {
    (toward.x - origin.x) * (p.x - origin.x) + (toward.y - origin.y) * (p.y - origin.y)
}

/// The cross product of the directions from `origin` to `toward` and to `p`.
pub open spec fn spec_cross(origin: Position, toward: Position, p: Position) -> int {
    (toward.x - origin.x) * (p.y - origin.y) - (toward.y - origin.y) * (p.x - origin.x)
}

/// Whether `p` lies within `radius` of `origin`.
pub open spec fn within(origin: Position, p: Position, radius: u32) -> bool {
    spec_distance_squared(origin, p) <= radius * radius
}

/// Whether the direction from `origin` to `p` deviates from the direction to
/// `toward` by at most `half_angle`. A point at the origin has no direction
/// and is never inside, and with `toward` at the origin nothing is.
pub open spec fn within_angle(
    origin: Position,
    toward: Position,
    half_angle: HalfAngle,
    p: Position,
) -> bool {
    let dot = spec_dot(origin, toward, p);
    let cross = spec_cross(origin, toward, p);
    let spread = if cross < 0 {
        -cross
    } else {
        cross
    };
    &&& p != origin
    &&& toward != origin
    &&& dot >= 0
    &&& spread * half_angle.tan_denominator <= half_angle.tan_numerator * dot
}

/// The targets of a list of enemies, in the same order.
pub open spec fn targets(enemies: Seq<Enemy>) -> Seq<Target> {
    Seq::new(enemies.len(), |i: int| enemies[i].target())
}

/// Whether `best` is the position of the admitted target nearest to
/// `origin`, and the first of those at that distance.
pub open spec fn is_nearest(ts: Seq<Target>, origin: Position, filter: TargetFilter, best: int) -> bool {
    &&& 0 <= best < ts.len()
    &&& filter.admits(origin, ts[best])
    &&& forall|j: int|
        0 <= j < ts.len() && filter.admits(origin, #[trigger] ts[j]) ==> {
            ||| spec_distance_squared(origin, ts[j].position) > spec_distance_squared(
                origin,
                ts[best].position,
            )
            ||| (spec_distance_squared(origin, ts[j].position) == spec_distance_squared(
                origin,
                ts[best].position,
            ) && best <= j)
        }
}

/// The position in `ts` of the nearest admitted target, if any is admitted.
pub open spec fn nearest(ts: Seq<Target>, origin: Position, filter: TargetFilter) -> Option<int> {
    if exists|i: int| is_nearest(ts, origin, filter, i) {
        Some(choose|i: int| is_nearest(ts, origin, filter, i))
    } else {
        None
    }
}

/// The product of two coordinate differences.
fn product(a: i64, b: i64) -> (p: i128)
    requires
        -0x1_0000_0000 <= a <= 0x1_0000_0000,
        -0x1_0000_0000 <= b <= 0x1_0000_0000,
    ensures
        p == a * b,
        -0x1_0000_0000_0000_0000 <= p <= 0x1_0000_0000_0000_0000,
{
    assert(-0x1_0000_0000_0000_0000 <= a * b <= 0x1_0000_0000_0000_0000) by (nonlinear_arith)
        requires
            -0x1_0000_0000 <= a <= 0x1_0000_0000,
            -0x1_0000_0000 <= b <= 0x1_0000_0000,
    ;
    (a as i128) * (b as i128)
}

/// The product of a factor of at most 32 bits and a sum of two coordinate
/// products.
fn scaled(factor: u32, value: i128) -> (p: i128)
    requires
        -0x2_0000_0000_0000_0000 <= value <= 0x2_0000_0000_0000_0000,
    ensures
        p == factor * value,
{
    assert(-0x2_0000_0000_0000_0000 * 0x1_0000_0000 <= factor * value <= 0x2_0000_0000_0000_0000
        * 0x1_0000_0000) by (nonlinear_arith)
        requires
            0 <= factor <= 0x1_0000_0000,
            -0x2_0000_0000_0000_0000 <= value <= 0x2_0000_0000_0000_0000,
    ;
    (factor as i128) * value
}

/// The square of the distance between two points.
pub fn distance_squared(a: Position, b: Position) -> (d: u128)
    ensures
        d == spec_distance_squared(a, b),
{
    let dx: i64 = a.x as i64 - b.x as i64;
    let dy: i64 = a.y as i64 - b.y as i64;
    let xx: i128 = product(dx, dx);
    let yy: i128 = product(dy, dy);
    assert(dx * dx >= 0 && dy * dy >= 0) by (nonlinear_arith);
    (xx + yy) as u128
}

/// Whether `p` lies within `radius` of `origin`.
pub fn is_within(origin: Position, p: Position, radius: u32) -> (inside: bool)
    ensures
        inside == within(origin, p, radius),
{
    let reach: i128 = scaled(radius, radius as i128);
    assert(radius * radius >= 0) by (nonlinear_arith);
    distance_squared(origin, p) <= reach as u128
}

/// Whether the direction from `origin` to `p` deviates from the direction to
/// `toward` by at most `half_angle`.
pub fn is_within_angle(origin: Position, toward: Position, half_angle: HalfAngle, p: Position) -> (inside:
    bool)
    ensures
        inside == within_angle(origin, toward, half_angle, p),
{
    let ax: i64 = toward.x as i64 - origin.x as i64;
    let ay: i64 = toward.y as i64 - origin.y as i64;
    let px: i64 = p.x as i64 - origin.x as i64;
    let py: i64 = p.y as i64 - origin.y as i64;
    if (px == 0 && py == 0) || (ax == 0 && ay == 0) {
        return false;
    }
    let dot: i128 = product(ax, px) + product(ay, py);
    let cross: i128 = product(ax, py) - product(ay, px);
    let spread: i128 = if cross < 0 {
        -cross
    } else {
        cross
    };
    if dot < 0 {
        return false;
    }
    let left: i128 = scaled(half_angle.tan_denominator, spread);
    let right: i128 = scaled(half_angle.tan_numerator, dot);
    assert(left == spread * half_angle.tan_denominator) by (nonlinear_arith)
        requires
            left == half_angle.tan_denominator * spread,
    ;
    left <= right
}

impl HalfAngle {
    /// Half of a right angle: the half angle of a cone that opens by a right
    /// angle.
    pub fn half_right() -> (angle: HalfAngle)
        ensures
            angle == (HalfAngle { tan_numerator: 1, tan_denominator: 1 }),
    {
        HalfAngle { tan_numerator: 1, tan_denominator: 1 }
    }
}

impl Enemy {
    /// What target acquisition sees of this enemy.
    pub open spec fn target(&self) -> Target {
        Target { id: self.id, position: self.position }
    }

    /// The health that is left: what the enemy was spawned with less the
    /// damage taken. It falls below zero when more damage was dealt than
    /// was needed.
    pub open spec fn current_health(&self) -> int {
        self.health - self.damage_taken
    }

    /// An unharmed enemy.
    pub fn new(id: u64, position: Position, health: u128, damage: u32) -> (enemy: Enemy)
        ensures
            enemy == (Enemy { id, position, health, damage, damage_taken: 0 }),
            enemy.current_health() == health,
    {
        Enemy { id, position, health, damage, damage_taken: 0 }
    }

    /// Whether the enemy has no health left.
    pub fn is_dead(&self) -> (dead: bool)
        ensures
            dead == (self.current_health() <= 0),
    {
        self.damage_taken >= self.health
    }

    /// The health that is left, counted as zero once it is used up.
    pub fn remaining_health(&self) -> (left: u128)
        ensures
            left == if self.current_health() > 0 {
                self.current_health()
            } else {
                0
            },
    {
        if self.damage_taken >= self.health {
            0
        } else {
            self.health - self.damage_taken
        }
    }
}

impl TargetFilter {
    /// Whether the search from `origin` admits `t`.
    pub open spec fn admits(&self, origin: Position, t: Target) -> bool {
        match *self {
            TargetFilter::Radius { radius, exclude } => t.id != exclude && within(
                origin,
                t.position,
                radius,
            ),
            TargetFilter::Cone { toward, max_distance, half_angle } => within(
                origin,
                t.position,
                max_distance,
            ) && within_angle(origin, toward, half_angle, t.position),
        }
    }

    /// Whether the search from `origin` admits `enemy`.
    pub fn accepts(&self, origin: Position, enemy: &Enemy) -> (admitted: bool)
        ensures
            admitted == self.admits(origin, enemy.target()),
    {
        match self {
            TargetFilter::Radius { radius, exclude } => enemy.id != *exclude && is_within(
                origin,
                enemy.position,
                *radius,
            ),
            TargetFilter::Cone { toward, max_distance, half_angle } => is_within(
                origin,
                enemy.position,
                *max_distance,
            ) && is_within_angle(origin, *toward, *half_angle, enemy.position),
        }
    }
}

/// The point aimed at lies inside every cone around the aim.
pub proof fn lemma_aim_is_inside(origin: Position, toward: Position, half_angle: HalfAngle)
    requires
        toward != origin,
    ensures
        within_angle(origin, toward, half_angle, toward),
{
    let ax = toward.x - origin.x;
    let ay = toward.y - origin.y;
    assert(ax * ay - ay * ax == 0) by (nonlinear_arith);
    assert(ax * ax + ay * ay >= 0) by (nonlinear_arith);
    assert(half_angle.tan_numerator * (ax * ax + ay * ay) >= 0) by (nonlinear_arith)
        requires
            ax * ax + ay * ay >= 0,
            half_angle.tan_numerator >= 0,
    ;
    assert(spec_cross(origin, toward, toward) == 0);
    assert(spec_dot(origin, toward, toward) == ax * ax + ay * ay);
    assert(0 * half_angle.tan_denominator == 0);
}

/// A point inside a cone lies inside every wider cone around the same aim.
pub proof fn lemma_wider_cone_holds_more(
    origin: Position,
    toward: Position,
    narrow: HalfAngle,
    wide: HalfAngle,
    p: Position,
)
    requires
        narrow.tan_denominator > 0,
        narrow.tan_numerator * wide.tan_denominator <= wide.tan_numerator * narrow.tan_denominator,
        within_angle(origin, toward, narrow, p),
    ensures
        within_angle(origin, toward, wide, p),
{
    let dot = spec_dot(origin, toward, p);
    let cross = spec_cross(origin, toward, p);
    let spread = if cross < 0 {
        -cross
    } else {
        cross
    };
    let n1 = narrow.tan_numerator as int;
    let d1 = narrow.tan_denominator as int;
    let n2 = wide.tan_numerator as int;
    let d2 = wide.tan_denominator as int;
    assert(spread * d2 <= n2 * dot) by (nonlinear_arith)
        requires
            spread * d1 <= n1 * dot,
            n1 * d2 <= n2 * d1,
            d1 > 0,
            d2 >= 0,
            n1 >= 0,
            n2 >= 0,
            dot >= 0,
            spread >= 0,
    ;
}

/// A point within a radius lies within every larger radius.
pub proof fn lemma_larger_radius_holds_more(origin: Position, p: Position, small: u32, large: u32)
    requires
        small <= large,
        within(origin, p, small),
    ensures
        within(origin, p, large),
{
    assert(small * small <= large * large) by (nonlinear_arith)
        requires
            0 <= small <= large,
    ;
}

/// At most one position is that of the nearest admitted target.
pub proof fn lemma_nearest_unique(
    ts: Seq<Target>,
    origin: Position,
    filter: TargetFilter,
    a: int,
    b: int,
)
    requires
        is_nearest(ts, origin, filter, a),
        is_nearest(ts, origin, filter, b),
    ensures
        a == b,
{
}

/// The nearest target is admitted, and where no target is admitted there is
/// no nearest one.
pub proof fn lemma_nearest_admitted(ts: Seq<Target>, origin: Position, filter: TargetFilter)
    ensures
        match nearest(ts, origin, filter) {
            Some(i) => is_nearest(ts, origin, filter, i),
            None => true,
        },
        (forall|j: int| 0 <= j < ts.len() ==> !filter.admits(origin, #[trigger] ts[j])) ==> nearest(
            ts,
            origin,
            filter,
        ).is_none(),
{
}

/// Among the first `n` targets, of which one is admitted, there is a
/// nearest admitted one.
pub proof fn lemma_nearest_among_first(
    ts: Seq<Target>,
    origin: Position,
    filter: TargetFilter,
    n: int,
) -> (best: int)
    requires
        0 <= n <= ts.len(),
        exists|j: int| 0 <= j < n && filter.admits(origin, #[trigger] ts[j]),
    ensures
        0 <= best < n,
        filter.admits(origin, ts[best]),
        forall|j: int|
            0 <= j < n && filter.admits(origin, #[trigger] ts[j]) ==> {
                ||| spec_distance_squared(origin, ts[j].position) > spec_distance_squared(
                    origin,
                    ts[best].position,
                )
                ||| (spec_distance_squared(origin, ts[j].position) == spec_distance_squared(
                    origin,
                    ts[best].position,
                ) && best <= j)
            },
    decreases n,
{
    if exists|j: int| 0 <= j < n - 1 && filter.admits(origin, #[trigger] ts[j]) {
        let before = lemma_nearest_among_first(ts, origin, filter, n - 1);
        if filter.admits(origin, ts[n - 1]) && spec_distance_squared(origin, ts[n - 1].position)
            < spec_distance_squared(origin, ts[before].position) {
            n - 1
        } else {
            before
        }
    } else {
        n - 1
    }
}

/// Where a target is admitted, there is a nearest one.
pub proof fn lemma_nearest_exists(ts: Seq<Target>, origin: Position, filter: TargetFilter)
    requires
        exists|j: int| 0 <= j < ts.len() && filter.admits(origin, #[trigger] ts[j]),
    ensures
        nearest(ts, origin, filter).is_some(),
{
    let best = lemma_nearest_among_first(ts, origin, filter, ts.len() as int);
    assert(is_nearest(ts, origin, filter, best));
}

/// The nearest enemy that `filter` admits in a search from `origin`, by its
/// position in `enemies`.
pub fn nearest_enemy(enemies: &Vec<Enemy>, origin: Position, filter: &TargetFilter) -> (found:
    Option<usize>)
    ensures
        match found {
            Some(i) => nearest(targets(enemies@), origin, *filter) == Some(i as int),
            None => nearest(targets(enemies@), origin, *filter).is_none(),
        },
        found.is_none() <==> forall|j: int|
            0 <= j < enemies@.len() ==> !filter.admits(origin, #[trigger] enemies@[j].target()),
{
    let ghost ts = targets(enemies@);
    let mut best: Option<(usize, u128)> = None;
    let mut i: usize = 0;
    while i < enemies.len()
        invariant
            i <= enemies@.len(),
            ts == targets(enemies@),
            match best {
                None => forall|j: int| 0 <= j < i ==> !filter.admits(origin, #[trigger] ts[j]),
                Some((at, distance)) => {
                    &&& at < i
                    &&& distance == spec_distance_squared(origin, ts[at as int].position)
                    &&& filter.admits(origin, ts[at as int])
                    &&& forall|j: int|
                        0 <= j < i && filter.admits(origin, #[trigger] ts[j]) ==> {
                            ||| spec_distance_squared(origin, ts[j].position) > distance
                            ||| (spec_distance_squared(origin, ts[j].position) == distance && at
                                <= j)
                        }
                },
            },
        decreases enemies@.len() - i,
    {
        assert(ts[i as int] == enemies@[i as int].target());
        if filter.accepts(origin, &enemies[i]) {
            let distance: u128 = distance_squared(origin, enemies[i].position);
            let closer: bool = match best {
                Some((_, least)) => distance < least,
                None => true,
            };
            if closer {
                best = Some((i, distance));
            }
        }
        i += 1;
    }
    match best {
        Some((at, _)) => {
            proof {
                assert(is_nearest(ts, origin, *filter, at as int));
                lemma_nearest_unique(
                    ts,
                    origin,
                    *filter,
                    at as int,
                    choose|i: int| is_nearest(ts, origin, *filter, i),
                );
                assert(ts[at as int] == enemies@[at as int].target());
            }
            Some(at)
        },
        None => {
            proof {
                assert forall|j: int| 0 <= j < enemies@.len() implies !filter.admits(
                    origin,
                    #[trigger] enemies@[j].target(),
                ) by {
                    assert(ts[j] == enemies@[j].target());
                }
            }
            None
        },
    }
}

/// The enemy that a shot from `player` toward `cursor` strikes: the nearest
/// one within `max_distance` whose direction deviates from the aim by at most
/// `half_angle`.
pub fn get_enemies_in_cone(
    player: Position,
    enemies: &Vec<Enemy>,
    cursor: Position,
    max_distance: u32,
    half_angle: HalfAngle,
) -> (found: Option<usize>)
    ensures
        match found {
            Some(i) => nearest(
                targets(enemies@),
                player,
                TargetFilter::Cone { toward: cursor, max_distance, half_angle },
            ) == Some(i as int),
            None => nearest(
                targets(enemies@),
                player,
                TargetFilter::Cone { toward: cursor, max_distance, half_angle },
            ).is_none(),
        },
        found.is_none() <==> forall|j: int|
            0 <= j < enemies@.len() ==> !(within(player, #[trigger] enemies@[j].position, max_distance)
                && within_angle(player, cursor, half_angle, enemies@[j].position)),
{
    let filter = TargetFilter::Cone { toward: cursor, max_distance, half_angle };
    let found = nearest_enemy(enemies, player, &filter);
    proof {
        assert forall|j: int| 0 <= j < enemies@.len() implies (filter.admits(
            player,
            enemies@[j].target(),
        ) == (within(player, #[trigger] enemies@[j].position, max_distance) && within_angle(
            player,
            cursor,
            half_angle,
            enemies@[j].position,
        ))) by {}
    }
    found
}

/// The enemy that an arc from `position` jumps to: the nearest one within
/// `radius` that does not have the id `exclude_entity`.
pub fn get_nearest_enemy_in_radius(
    enemies: &Vec<Enemy>,
    position: Position,
    radius: u32,
    exclude_entity: u64,
) -> (found: Option<usize>)
    ensures
        match found {
            Some(i) => nearest(
                targets(enemies@),
                position,
                TargetFilter::Radius { radius, exclude: exclude_entity },
            ) == Some(i as int),
            None => nearest(
                targets(enemies@),
                position,
                TargetFilter::Radius { radius, exclude: exclude_entity },
            ).is_none(),
        },
        found.is_none() <==> forall|j: int|
            0 <= j < enemies@.len() ==> !((#[trigger] enemies@[j]).id != exclude_entity && within(
                position,
                enemies@[j].position,
                radius,
            )),
{
    let filter = TargetFilter::Radius { radius, exclude: exclude_entity };
    let found = nearest_enemy(enemies, position, &filter);
    proof {
        assert forall|j: int| 0 <= j < enemies@.len() implies (filter.admits(
            position,
            enemies@[j].target(),
        ) == ((#[trigger] enemies@[j]).id != exclude_entity && within(
            position,
            enemies@[j].position,
            radius,
        ))) by {}
    }
    found
}

} // verus!
