use vstd::prelude::*;

use crate::entity::{Entity, EntityType, TileType};
use crate::game::{
    clamp_i32, in_bounds, interior, min_val, sat_sub, someone_at, tile_index, Game, MAP_HEIGHT,
    MAP_WIDTH,
};
use crate::text::{decimal, number_message};

verus! {

/// i is a living non-player entity standing at (x, y).
pub open spec fn live_at(es: Seq<Entity>, pi: int, i: int, x: int, y: int) -> bool {
    &&& 0 <= i < es.len()
    &&& i != pi
    &&& es[i].is_alive
    &&& es[i].x as int == x
    &&& es[i].y as int == y
}

/// Some living non-player entity of kind t stands at (x, y).
pub open spec fn kind_at(es: Seq<Entity>, pi: int, x: int, y: int, t: EntityType) -> bool {
    exists|i: int| live_at(es, pi, i, x, y) && (#[trigger] es[i]).entity_type == t
}

/// The two squares are within one step of each other on both axes.
pub open spec fn adjacent(ax: int, ay: int, bx: int, by: int) -> bool {
    -1 <= ax - bx <= 1 && -1 <= ay - by <= 1
}

/// Absolute value.
pub open spec fn abs_val(v: int) -> int {
    if v < 0 {
        -v
    } else {
        v
    }
}

/// Manhattan distance between two squares.
pub open spec fn manhattan(ax: int, ay: int, bx: int, by: int) -> int {
    abs_val(ax - bx) + abs_val(ay - by)
}

/// A single-axis unit step from one coordinate toward another.
pub open spec fn step_toward(from: int, to: int) -> int {
    if to > from {
        1
    } else if to < from {
        -1
    } else {
        0
    }
}

/// Entity i, taking its turn, attacks the player: it is a living monster
/// within one step of the player on both axes.
pub open spec fn monster_attacks(es: Seq<Entity>, pi: int, i: int) -> bool {
    &&& 0 <= i < es.len()
    &&& 0 <= pi < es.len()
    &&& i != pi
    &&& es[i].entity_type == EntityType::Monster
    &&& es[i].is_alive
    &&& adjacent(es[i].x as int, es[i].y as int, es[pi].x as int, es[pi].y as int)
}

/// The roster after entity i has taken its turn: an adjacent living monster
/// attacks the player; a living monster within Manhattan distance 5 takes one
/// step toward the player, per axis, when the destination tile is neither
/// Wall nor occupied by a living entity; everything else stays put.
pub open spec fn monster_turn(es: Seq<Entity>, map: Seq<TileType>, pi: int, i: int) -> Seq<
    Entity,
> {
    if !(0 <= pi < es.len() && 0 <= i < es.len()) {
        es
    } else if monster_attacks(es, pi, i) {
        let p = es[pi];
        es.update(pi, Entity { health: clamp_i32(p.health - es[i].attack) as i32, ..p })
    } else if i != pi && es[i].entity_type == EntityType::Monster && es[i].is_alive && manhattan(
        es[i].x as int,
        es[i].y as int,
        es[pi].x as int,
        es[pi].y as int,
    ) < 5 {
        let m = es[i];
        let nx = m.x as int + step_toward(m.x as int, es[pi].x as int);
        let ny = m.y as int + step_toward(m.y as int, es[pi].y as int);
        if in_bounds(nx, ny) && map[tile_index(nx, ny)] != TileType::Wall && !someone_at(
            es,
            nx,
            ny,
        ) {
            es.update(i, Entity { x: nx as i32, y: ny as i32, ..m })
        } else {
            es
        }
    } else {
        es
    }
}

/// The roster after the first n entities have taken their turns, in order.
pub open spec fn monsters_turns(es: Seq<Entity>, map: Seq<TileType>, pi: int, n: int) -> Seq<
    Entity,
>
    decreases n,
{
    if n <= 0 {
        es
    } else {
        monster_turn(monsters_turns(es, map, pi, n - 1), map, pi, n - 1)
    }
}

/// The total damage the player takes from the first n entities: the attack of
/// every living monster adjacent to the player.
pub open spec fn turn_damage(es: Seq<Entity>, pi: int, n: int) -> int
    decreases n,
{
    if n <= 0 {
        0
    } else {
        turn_damage(es, pi, n - 1) + if monster_attacks(es, pi, n - 1) {
            es[n - 1].attack as int
        } else {
            0
        }
    }
}

/// The log entry for one monster attack of the given strength.
pub open spec fn attack_message(a: int) -> Seq<char> {
    "Monster attacks for "@ + decimal(a) + " damage!"@
}

/// The messages logged while the first n entities take their turns.
pub open spec fn turn_events(es: Seq<Entity>, pi: int, n: int) -> Seq<Seq<char>>
    decreases n,
{
    if n <= 0 {
        Seq::empty()
    } else {
        turn_events(es, pi, n - 1) + if monster_attacks(es, pi, n - 1) {
            seq![attack_message(es[n - 1].attack as int)]
        } else {
            Seq::<Seq<char>>::empty()
        }
    }
}

/// What one pass of the monster turns does to the roster: it keeps every
/// field of every non-player entity except positions of monsters that
/// stepped, it never moves or re-types anyone's record beyond that, and the
/// player loses exactly the summed attacks of the adjacent living monsters,
/// saturating at the bottom of the i32 range.
pub proof fn lemma_turns_frame(es: Seq<Entity>, map: Seq<TileType>, pi: int, n: int)
    requires
        0 <= pi < es.len(),
        0 <= n <= es.len(),
        forall|k: int| 0 <= k < es.len() ==> (#[trigger] es[k]).attack >= 0,
    ensures
        monsters_turns(es, map, pi, n).len() == es.len(),
        forall|k: int|
            n <= k < es.len() && k != pi ==> (#[trigger] monsters_turns(es, map, pi, n)[k])
                == es[k],
        forall|k: int|
            0 <= k < es.len() && k != pi ==> {
                let e = #[trigger] monsters_turns(es, map, pi, n)[k];
                &&& e.entity_type == es[k].entity_type
                &&& e.is_alive == es[k].is_alive
                &&& e.health == es[k].health
                &&& e.attack == es[k].attack
                &&& e.max_health == es[k].max_health
                &&& e.symbol == es[k].symbol
            },
        forall|k: int|
            0 <= k < es.len() && k != pi && es[k].entity_type != EntityType::Monster ==> (
            #[trigger] monsters_turns(es, map, pi, n)[k]) == es[k],
        monsters_turns(es, map, pi, n)[pi] == (Entity {
            health: clamp_i32(es[pi].health - turn_damage(es, pi, n)) as i32,
            ..es[pi]
        }),
        turn_damage(es, pi, n) >= 0,
    decreases n,
{
    if n <= 0 {
        assert(monsters_turns(es, map, pi, 0) == es);
        assert(es[pi] == (Entity { health: clamp_i32(es[pi].health - 0) as i32, ..es[pi] }));
    } else {
        lemma_turns_frame(es, map, pi, n - 1);
        let prev = monsters_turns(es, map, pi, n - 1);
        let i = n - 1;
        assert(monster_attacks(prev, pi, i) == monster_attacks(es, pi, i));
        if monster_attacks(es, pi, i) {
            assert(prev[i].attack == es[i].attack);
        }
    }
}

/// The log entry for descending to floor n.
pub open spec fn descend_message(n: int) -> Seq<char> {
    "Descended to floor "@ + decimal(n) + "!"@
}

/// The log entry for defeating a monster.
pub open spec fn defeat_message() -> Seq<char> {
    "Monster defeated!"@
}

/// The log entry for a monster's counterattack of the given strength.
pub open spec fn hit_message(a: int) -> Seq<char> {
    "Monster hits you for "@ + decimal(a) + " damage!"@
}

/// The log entry for picking up gold.
pub open spec fn gold_message() -> Seq<char> {
    "Found gold! +50 score"@
}

/// The log entry for drinking a potion.
pub open spec fn potion_message() -> Seq<char> {
    "Healed 30 HP!"@
}

/// A living gold pile sits on the target tile.
pub open spec fn pickup_gold(g: Game, tx: int, ty: int) -> bool {
    kind_at(g.entities@, g.player_index as int, tx, ty, EntityType::Gold)
}

/// A living potion sits on the target tile.
pub open spec fn pickup_potion(g: Game, tx: int, ty: int) -> bool {
    kind_at(g.entities@, g.player_index as int, tx, ty, EntityType::Potion)
}

/// The player's health right after stepping onto the target tile: healed by
/// 30, capped at max health, when a potion sat there.
pub open spec fn pickup_heal(g: Game, tx: int, ty: int) -> int {
    let p = g.player();
    if pickup_potion(g, tx, ty) {
        min_val(p.health + 30, p.max_health as int)
    } else {
        p.health as int
    }
}

/// The messages a pickup on the target tile logs.
pub open spec fn pickup_events(g: Game, tx: int, ty: int) -> Seq<Seq<char>> {
    if pickup_gold(g, tx, ty) {
        seq![gold_message()]
    } else if pickup_potion(g, tx, ty) {
        seq![potion_message()]
    } else {
        Seq::<Seq<char>>::empty()
    }
}

/// The roster right after the player has stepped onto the target tile: any
/// gold or potion there is consumed (tombstoned) and the player stands at
/// (tx, ty) with the pickup's healing applied.
pub open spec fn stepped_entities(g: Game, tx: int, ty: int) -> Seq<Entity> {
    let pi = g.player_index as int;
    let es = g.entities@;
    let es1 = if exists|i: int|
        live_at(es, pi, i, tx, ty) && ((#[trigger] es[i]).entity_type == EntityType::Gold
            || es[i].entity_type == EntityType::Potion) {
        let i = choose|i: int|
            live_at(es, pi, i, tx, ty) && ((#[trigger] es[i]).entity_type == EntityType::Gold
                || es[i].entity_type == EntityType::Potion);
        es.update(i, Entity { is_alive: false, ..es[i] })
    } else {
        es
    };
    es1.update(
        pi,
        Entity { x: tx as i32, y: ty as i32, health: pickup_heal(g, tx, ty) as i32, ..es[pi] },
    )
}

/// The requested displacement is rejected: the target tile is off the map or
/// a Wall.
pub open spec fn move_blocked(g: Game, dx: int, dy: int) -> bool {
    let tx = g.player().x as int + dx;
    let ty = g.player().y as int + dy;
    !in_bounds(tx, ty) || g.spec_tile(tx, ty) == TileType::Wall
}

/// What bumping into the living monster at index i does: the player strikes
/// first; a monster left at or below zero health dies, scores 10 and is
/// logged, and the player does not move; otherwise the monster retaliates in
/// the same turn. Nothing else changes.
pub open spec fn combat_outcome(g: Game, g2: Game, i: int) -> bool {
    let pi = g.player_index as int;
    let m = g.entities@[i];
    let p = g.player();
    let hurt = clamp_i32(m.health - p.attack) as i32;
    &&& if m.health <= p.attack {
        &&& g2.entities@ == g.entities@.update(i, Entity { health: hurt, is_alive: false, ..m })
        &&& g2.score as int == clamp_i32(g.score + 10)
        &&& g2.events@ == g.events@.push(defeat_message())
    } else {
        &&& g2.entities@ == g.entities@.update(i, Entity { health: hurt, ..m }).update(
            pi,
            Entity { health: clamp_i32(p.health - m.attack) as i32, ..p },
        )
        &&& g2.score == g.score
        &&& g2.events@ == g.events@.push(hit_message(m.attack as int))
    }
    &&& g2 == (Game {
        entities: g2.entities,
        score: g2.score,
        messages: g2.messages,
        events: g2.events,
        ..g
    })
}

/// What a committed non-combat move onto (tx, ty) does: pickups are applied
/// and logged, the player moves, stairs trigger the floor transition,
/// visibility is recomputed around the player, and every monster takes one
/// turn.
pub open spec fn step_outcome(g: Game, g2: Game, tx: int, ty: int) -> bool {
    let pi = g.player_index as int;
    let stairs = g.spec_tile(tx, ty) == TileType::StairsDown;
    let base_score = clamp_i32(
        g.score + if pickup_gold(g, tx, ty) {
            50int
        } else {
            0int
        },
    );
    let stepped = stepped_entities(g, tx, ty);
    let n = g.entities@.len() as int;
    &&& g2.floor as int == if stairs {
        clamp_i32(g.floor + 1)
    } else {
        g.floor as int
    }
    &&& g2.score as int == if stairs {
        clamp_i32(base_score + 100)
    } else {
        base_score
    }
    &&& g2.player().entity_type == EntityType::Player
    &&& g2.player().attack == g.player().attack
    &&& g2.player().max_health == g.player().max_health
    &&& g2.player().health as int <= pickup_heal(g, tx, ty)
    &&& forall|x: int, y: int| #[trigger] g2.spec_visible(x, y) <==> g2.in_fov(x, y)
    &&& if stairs {
        &&& g2.player_index == 0
        &&& 1 <= g2.entities@.len() <= 11
        &&& (g.events@ + pickup_events(g, tx, ty)).push(
            descend_message(clamp_i32(g.floor + 1)),
        ).is_prefix_of(g2.events@)
    } else {
        &&& g2.player_index == g.player_index
        &&& g2.player().x as int == tx && g2.player().y as int == ty
        &&& g2.entities@ == monsters_turns(stepped, g.map@, pi, n)
        &&& g2.events@ == g.events@ + pickup_events(g, tx, ty) + turn_events(stepped, pi, n)
        &&& g2.player().health as int == clamp_i32(
            pickup_heal(g, tx, ty) - turn_damage(stepped, pi, n),
        )
        &&& g2.map@ == g.map@
    }
}

impl Game {
    /// Move one floor down: bump floor and score, log the event, keep only
    /// the player (relocated to the fresh spawn), and regenerate the dungeon.
    pub(crate) fn next_floor(&mut self)
        requires
            old(self).wf(),
        ensures
            final(self).wf(),
            final(self).floor as int == clamp_i32(old(self).floor + 1),
            final(self).score as int == clamp_i32(old(self).score + 100),
            final(self).player_index == 0,
            1 <= final(self).entities@.len() <= 11,
            ({
                let p = final(self).entities@[0];
                let q = old(self).player();
                &&& p.entity_type == EntityType::Player
                &&& p.is_alive
                &&& p.health == q.health
                &&& p.max_health == q.max_health
                &&& p.attack == q.attack
                &&& p.symbol == q.symbol
            }),
            forall|i: int|
                1 <= i < final(self).entities@.len() ==> {
                    let e = #[trigger] final(self).entities@[i];
                    &&& e.entity_type != EntityType::Player
                    &&& e == crate::entity::made(e.entity_type, e.x, e.y)
                },
            final(self).events@ == old(self).events@.push(
                descend_message(clamp_i32(old(self).floor + 1)),
            ),
            forall|x: int, y: int|
                old(self).spec_explored(x, y) ==> #[trigger] final(self).spec_explored(x, y),
            forall|x: int, y: int|
                #[trigger] final(self).spec_visible(x, y) <==> final(self).in_fov(x, y),
    {
        self.floor = crate::game::sat_add(self.floor, 1);
        self.score = crate::game::sat_add(self.score, 100);
        let msg = number_message("Descended to floor ", self.floor, "!");
        self.add_message(msg);
        proof {
            assert(old(self).wf_entity(old(self).player_index as int));
        }
        let p = self.entities[self.player_index];
        self.entities.clear();
        self.entities.push(p);
        self.player_index = 0;
        self.generate_map();
        let ghost after_gen = *self;
        self.update_fov();
        proof {
            crate::game::lemma_wf_transfer(*self, after_gen);
        }
    }

    /// The index of the living non-player entity standing at (x, y), if any.
    fn find_living_at(&self, x: i32, y: i32) -> (r: Option<usize>)
        requires
            self.player_index < self.entities@.len(),
        ensures
            match r {
                Some(i) => live_at(
                    self.entities@,
                    self.player_index as int,
                    i as int,
                    x as int,
                    y as int,
                ),
                None => forall|k: int|
                    !live_at(self.entities@, self.player_index as int, k, x as int, y as int),
            },
    {
        let mut i: usize = 0;
        while i < self.entities.len()
            invariant
                0 <= i <= self.entities@.len(),
                forall|k: int|
                    0 <= k < i ==> !live_at(
                        self.entities@,
                        self.player_index as int,
                        k,
                        x as int,
                        y as int,
                    ),
            decreases self.entities@.len() - i,
        {
            if i != self.player_index {
                let e = self.entities[i];
                if e.x == x && e.y == y && e.is_alive {
                    return Some(i);
                }
            }
            i = i + 1;
        }
        None
    }

    /// Resolve one player action: reject a move into a Wall or off the map;
    /// bump attack a living monster on the target tile without moving; pick
    /// up and consume gold or a potion there; move the player; descend when
    /// the target is the stairs; then recompute visibility and let every
    /// monster take a turn. Returns whether the turn was consumed.
    pub fn move_player(&mut self, dx: i32, dy: i32) -> (r: bool)
        requires
            old(self).wf(),
        ensures
            final(self).wf(),
            r == !move_blocked(*old(self), dx as int, dy as int),
            !r ==> *final(self) == *old(self),
            forall|x: int, y: int|
                old(self).spec_explored(x, y) ==> #[trigger] final(self).spec_explored(x, y),
            old(self).events@.is_prefix_of(final(self).events@),
            forall|i: int|
                r && live_at(
                    old(self).entities@,
                    old(self).player_index as int,
                    i,
                    old(self).player().x as int + dx as int,
                    old(self).player().y as int + dy as int,
                ) && (#[trigger] old(self).entities@[i]).entity_type == EntityType::Monster
                    ==> combat_outcome(*old(self), *final(self), i),
            (r && !kind_at(
                old(self).entities@,
                old(self).player_index as int,
                old(self).player().x as int + dx as int,
                old(self).player().y as int + dy as int,
                EntityType::Monster,
            )) ==> step_outcome(
                *old(self),
                *final(self),
                old(self).player().x as int + dx as int,
                old(self).player().y as int + dy as int,
            ),
    {
        proof {
            assert(old(self).wf_entity(old(self).player_index as int));
        }
        let p = self.entities[self.player_index];
        let tx64 = (p.x as i64) + (dx as i64);
        let ty64 = (p.y as i64) + (dy as i64);
        if tx64 < 0 || tx64 >= MAP_WIDTH as i64 || ty64 < 0 || ty64 >= MAP_HEIGHT as i64 {
            proof {
                assert(self.events@.subrange(0, self.events@.len() as int) =~= self.events@);
            }
            return false;
        }
        let tx = tx64 as i32;
        let ty = ty64 as i32;
        let tidx = (ty as usize) * MAP_WIDTH + (tx as usize);
        let target_tile = self.map[tidx];
        if matches!(target_tile, TileType::Wall) {
            proof {
                assert(self.events@.subrange(0, self.events@.len() as int) =~= self.events@);
            }
            return false;
        }
        let ghost g0 = *old(self);
        let ghost pi = g0.player_index as int;
        let ghost txi = tx as int;
        let ghost tyi = ty as int;
        proof {
            assert(target_tile == g0.spec_tile(txi, tyi));
            if !interior(txi, tyi) {
                assert(g0.spec_tile(txi, tyi) == TileType::Wall);
            }
        }

        let found = self.find_living_at(tx, ty);
        if let Some(i) = found {
            proof {
                assert(g0.wf_entity(i as int));
            }
            let e = self.entities[i];
            match e.entity_type {
                EntityType::Monster => {
                    // Combat: the player strikes; the monster dies or
                    // retaliates; the player stays put.
                    let pat = self.entities[self.player_index].attack;
                    let mut m = e;
                    m.health = sat_sub(m.health, pat);
                    if m.health <= 0 {
                        m.is_alive = false;
                        self.entities[i] = m;
                        self.score = crate::game::sat_add(self.score, 10);
                        self.add_message("Monster defeated!".to_owned());
                    } else {
                        self.entities[i] = m;
                        let damage = m.attack;
                        let pidx = self.player_index;
                        let mut pl = self.entities[pidx];
                        pl.health = sat_sub(pl.health, damage);
                        self.entities[pidx] = pl;
                        let msg = number_message("Monster hits you for ", damage, " damage!");
                        self.add_message(msg);
                    }
                    proof {
                        crate::game::lemma_same_grids(*self, g0);
                        crate::game::lemma_wf_grid_transfer(*self, g0);
                        assert forall|k: int|
                            0 <= k < self.entities@.len() implies self.wf_entity(k) by {
                            assert(g0.wf_entity(k));
                        }
                        assert(combat_outcome(g0, *self, i as int));
                        assert forall|j: int|
                            live_at(g0.entities@, pi, j, txi, tyi) && (
                            #[trigger] g0.entities@[j]).entity_type == EntityType::Monster implies j
                            == i as int by {
                            assert(g0.entities@[j].is_alive && g0.entities@[i as int].is_alive);
                        }
                        assert(kind_at(g0.entities@, pi, txi, tyi, EntityType::Monster));
                        assert(self.events@.subrange(0, g0.events@.len() as int) =~= g0.events@);
                    }
                    return true;
                },
                EntityType::Gold => {
                    let mut g = e;
                    g.is_alive = false;
                    self.entities[i] = g;
                    self.score = crate::game::sat_add(self.score, 50);
                    self.add_message("Found gold! +50 score".to_owned());
                },
                EntityType::Potion => {
                    let mut it = e;
                    it.is_alive = false;
                    self.entities[i] = it;
                    let pidx = self.player_index;
                    let mut pl = self.entities[pidx];
                    pl.health = if pl.health <= pl.max_health - 30 {
                        pl.health + 30
                    } else {
                        pl.max_health
                    };
                    self.entities[pidx] = pl;
                    self.add_message("Healed 30 HP!".to_owned());
                },
                EntityType::Player => {
                    proof {
                        assert(false);
                    }
                },
            }
        }

        // The move is committed: put the player on the target tile.
        let pidx = self.player_index;
        let mut pl = self.entities[pidx];
        pl.x = tx;
        pl.y = ty;
        self.entities[pidx] = pl;

        proof {
            crate::game::lemma_same_grids(*self, g0);
            crate::game::lemma_wf_grid_transfer(*self, g0);
            // There is exactly one candidate for a pickup at the target.
            assert forall|j: int|
                live_at(g0.entities@, pi, j, txi, tyi) implies found == Some(j as usize) by {
                if let Some(i) = found {
                    assert(g0.entities@[j].is_alive && g0.entities@[i as int].is_alive);
                }
            }
            match found {
                Some(i) => {
                    let t = g0.entities@[i as int].entity_type;
                    assert(t == EntityType::Gold || t == EntityType::Potion);
                    if t == EntityType::Gold {
                        assert(pickup_gold(g0, txi, tyi));
                        assert(!pickup_potion(g0, txi, tyi));
                    } else {
                        assert(pickup_potion(g0, txi, tyi));
                        assert(!pickup_gold(g0, txi, tyi));
                    }
                    let j = choose|j: int|
                        live_at(g0.entities@, pi, j, txi, tyi) && ((
                        #[trigger] g0.entities@[j]).entity_type == EntityType::Gold
                            || g0.entities@[j].entity_type == EntityType::Potion);
                    assert(live_at(g0.entities@, pi, i as int, txi, tyi) && (g0.entities@[i as int].entity_type
                        == EntityType::Gold || g0.entities@[i as int].entity_type
                        == EntityType::Potion));
                    assert(j == i as int);
                },
                None => {
                    assert(!pickup_gold(g0, txi, tyi));
                    assert(!pickup_potion(g0, txi, tyi));
                },
            }
            assert(self.entities@ =~= stepped_entities(g0, txi, tyi));
            assert(self.events@ =~= g0.events@ + pickup_events(g0, txi, tyi));
            assert(self.score as int == clamp_i32(
                g0.score + if pickup_gold(g0, txi, tyi) {
                    50int
                } else {
                    0int
                },
            ));
            // No living entity other than the player remains on the target.
            assert forall|o: int|
                0 <= o < self.entities@.len() && o != pi && (
                #[trigger] self.entities@[o]).is_alive implies !(self.entities@[o].x as int == txi
                && self.entities@[o].y as int == tyi) by {
                if self.entities@[o].x as int == txi && self.entities@[o].y as int == tyi {
                    assert(self.entities@[o] == g0.entities@[o]);
                    assert(live_at(g0.entities@, pi, o, txi, tyi));
                }
            }
            assert forall|a: int, b: int|
                #![trigger self.entities@[a], self.entities@[b]]
                0 <= a < b < self.entities@.len() && self.entities@[a].is_alive
                    && self.entities@[b].is_alive implies !(self.entities@[a].x
                == self.entities@[b].x && self.entities@[a].y == self.entities@[b].y) by {
                if a != pi && b != pi {
                    assert(g0.entities@[a] == self.entities@[a] || !g0.entities@[a].is_alive
                        || self.entities@[a] == g0.entities@[a]);
                    assert(self.entities@[a] == g0.entities@[a]);
                    assert(self.entities@[b] == g0.entities@[b]);
                    assert(g0.entities@[a].is_alive && g0.entities@[b].is_alive);
                }
            }
            assert forall|k: int| 0 <= k < self.entities@.len() implies self.wf_entity(k) by {
                assert(g0.wf_entity(k));
            }
            assert(self.wf());
        }

        let ghost moved = *self;
        if matches!(target_tile, TileType::StairsDown) {
            self.next_floor();
        }
        let ghost after_stairs = *self;
        proof {
            assert(self.wf_entity(self.player_index as int));
        }
        self.update_fov();
        proof {
            crate::game::lemma_wf_transfer(*self, after_stairs);
            assert(self.wf());
        }
        let ghost after_fov = *self;
        self.process_monsters();

        proof {
            assert forall|k: int|
                0 <= k < after_fov.entities@.len() implies (
            #[trigger] after_fov.entities@[k]).attack >= 0 by {
                assert(after_fov.wf_entity(k));
            }
            lemma_turns_frame(
                after_fov.entities@,
                after_fov.map@,
                after_fov.player_index as int,
                after_fov.entities@.len() as int,
            );
            assert(self.events@.subrange(0, g0.events@.len() as int) =~= g0.events@);
            assert forall|x: int, y: int|
                g0.spec_explored(x, y) implies #[trigger] self.spec_explored(x, y) by {
                if g0.spec_explored(x, y) {
                    crate::game::lemma_same_grids(moved, g0);
                    assert(moved.spec_explored(x, y));
                    assert(after_stairs.spec_explored(x, y));
                    assert(after_fov.spec_explored(x, y));
                    crate::game::lemma_same_grids(*self, after_fov);
                }
            }
            if !matches!(target_tile, TileType::StairsDown) {
                assert(self.events@ =~= g0.events@ + pickup_events(g0, txi, tyi) + turn_events(
                    stepped_entities(g0, txi, tyi),
                    pi,
                    g0.entities@.len() as int,
                ));
                assert forall|x: int, y: int| #[trigger]
                    self.spec_visible(x, y) <==> self.in_fov(x, y) by {
                    assert(after_fov.spec_visible(x, y) == self.spec_visible(x, y));
                    assert(after_fov.in_fov(x, y) == self.in_fov(x, y));
                }
                assert(step_outcome(g0, *self, txi, tyi));
            } else {
                let pre = (g0.events@ + pickup_events(g0, txi, tyi)).push(
                    descend_message(clamp_i32(g0.floor + 1)),
                );
                assert(after_stairs.events@ =~= pre);
                assert(self.events@.subrange(0, pre.len() as int) =~= pre);
                assert(pre.is_prefix_of(self.events@));
                assert forall|x: int, y: int| #[trigger]
                    self.spec_visible(x, y) <==> self.in_fov(x, y) by {
                    assert(after_fov.spec_visible(x, y) == self.spec_visible(x, y));
                    assert(after_fov.in_fov(x, y) == self.in_fov(x, y));
                }
                assert(step_outcome(g0, *self, txi, tyi));
            }
        }
        true
    }

    /// Advance every living monster by one turn, in roster order: attack the
    /// player when adjacent, step toward the player when close, else wait.
    #[verifier::loop_isolation(false)]
    pub(crate) fn process_monsters(&mut self)
        requires
            old(self).wf(),
        ensures
            final(self).wf(),
            final(self).entities@ == monsters_turns(
                old(self).entities@,
                old(self).map@,
                old(self).player_index as int,
                old(self).entities@.len() as int,
            ),
            final(self).events@ == old(self).events@ + turn_events(
                old(self).entities@,
                old(self).player_index as int,
                old(self).entities@.len() as int,
            ),
            *final(self) == (Game {
                entities: final(self).entities,
                messages: final(self).messages,
                events: final(self).events,
                ..*old(self)
            }),
    {
        let ghost es0 = old(self).entities@;
        let ghost map0 = old(self).map@;
        let ghost pi0 = old(self).player_index as int;
        proof {
            assert forall|k: int| 0 <= k < es0.len() implies (#[trigger] es0[k]).attack >= 0 by {
                assert(old(self).wf_entity(k));
            }
        }
        let px = self.entities[self.player_index].x;
        let py = self.entities[self.player_index].y;
        let len = self.entities.len();
        let mut i: usize = 0;
        while i < len
            invariant
                0 <= i <= len,
                len == es0.len(),
                self.entities@ == monsters_turns(es0, map0, pi0, i as int),
                self.events@ == old(self).events@ + turn_events(es0, pi0, i as int),
                self.log_ok(),
                self.wf_grid(),
                self.wf_entities(),
                forall|x: int, y: int| #[trigger]
                    self.spec_visible(x, y) ==> self.spec_explored(x, y),
                self.player().x == px,
                self.player().y == py,
                *self == (Game {
                    entities: self.entities,
                    messages: self.messages,
                    events: self.events,
                    ..*old(self)
                }),
            decreases len - i,
        {
            let ghost prev = *self;
            proof {
                lemma_turns_frame(es0, map0, pi0, i as int);
            }
            if i != self.player_index && self.entities[i].is_alive && matches!(
                self.entities[i].entity_type,
                EntityType::Monster,
            ) {
                let mx = self.entities[i].x;
                let my = self.entities[i].y;
                proof {
                    assert(self.wf_entity(i as int));
                    assert(self.wf_entity(self.player_index as int));
                }
                let ddx = if px >= mx {
                    px - mx
                } else {
                    mx - px
                };
                let ddy = if py >= my {
                    py - my
                } else {
                    my - py
                };
                if ddx <= 1 && ddy <= 1 {
                    // Attack the player.
                    let damage = self.entities[i].attack;
                    let mut p = self.entities[self.player_index];
                    p.health = sat_sub(p.health, damage);
                    let pidx = self.player_index;
                    self.entities[pidx] = p;
                    let msg = number_message("Monster attacks for ", damage, " damage!");
                    self.add_message(msg);
                    proof {
                        crate::game::lemma_same_grids(*self, prev);
                        crate::game::lemma_wf_grid_transfer(*self, prev);
                        assert(self.entities@ =~= monster_turn(prev.entities@, map0, pi0, i as int));
                        assert(turn_events(es0, pi0, i as int + 1) =~= turn_events(es0, pi0, i as int)
                            + seq![attack_message(es0[i as int].attack as int)]);
                        assert(self.events@ =~= old(self).events@ + turn_events(
                            es0,
                            pi0,
                            i as int + 1,
                        ));
                        assert forall|k: int| 0 <= k < self.entities@.len() implies self.wf_entity(
                            k,
                        ) by {
                            assert(prev.wf_entity(k));
                        }
                    }
                } else if ddx + ddy < 5 {
                    // Step toward the player when the way is clear.
                    let sx: i32 = if px > mx {
                        1
                    } else if px < mx {
                        -1
                    } else {
                        0
                    };
                    let sy: i32 = if py > my {
                        1
                    } else if py < my {
                        -1
                    } else {
                        0
                    };
                    let nx = mx + sx;
                    let ny = my + sy;
                    let idx = (ny as usize) * MAP_WIDTH + (nx as usize);
                    if self.map[idx] != TileType::Wall && !self.is_blocked(nx, ny) {
                        let mut m = self.entities[i];
                        m.x = nx;
                        m.y = ny;
                        self.entities[i] = m;
                    }
                    proof {
                        crate::game::lemma_same_grids(*self, prev);
                        crate::game::lemma_wf_grid_transfer(*self, prev);
                        assert(self.entities@ =~= monster_turn(prev.entities@, map0, pi0, i as int));
                        assert(turn_events(es0, pi0, i as int + 1) =~= turn_events(
                            es0,
                            pi0,
                            i as int,
                        ));
                        assert forall|k: int| 0 <= k < self.entities@.len() implies self.wf_entity(
                            k,
                        ) by {
                            assert(prev.wf_entity(k));
                        }
                    }
                } else {
                    proof {
                        assert(self.entities@ =~= monster_turn(prev.entities@, map0, pi0, i as int));
                        assert(turn_events(es0, pi0, i as int + 1) =~= turn_events(
                            es0,
                            pi0,
                            i as int,
                        ));
                    }
                }
            } else {
                proof {
                    assert(self.entities@ =~= monster_turn(prev.entities@, map0, pi0, i as int));
                    assert(turn_events(es0, pi0, i as int + 1) =~= turn_events(es0, pi0, i as int));
                }
            }
            i = i + 1;
        }
    }
}

} // verus!
