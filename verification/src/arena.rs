use vstd::prelude::*;

use crate::entity::{made, Entity, EntityType, TileType};
use crate::game::{in_bounds, interior, Game, MAP_HEIGHT, MAP_WIDTH, TILE_COUNT};
use crate::mapgen::{false_grid, wall_grid};

verus! {

/// The terrain of the deterministic arena: Wall on the border, StairsDown in
/// the bottom-right interior corner, Floor everywhere else.
pub open spec fn arena_tile(x: int, y: int) -> TileType {
    if !interior(x, y) {
        TileType::Wall
    } else if x == MAP_WIDTH as int - 2 && y == MAP_HEIGHT as int - 2 {
        TileType::StairsDown
    } else {
        TileType::Floor
    }
}

impl Game {
    /// A deterministic state for harnesses: an all-Floor interior behind the
    /// Wall border, the stairs in the bottom-right interior corner, the
    /// player alone at (px, py), an empty log, score 0, floor 1, and the
    /// field of view computed. None when (px, py) is not strictly inside the
    /// border.
    #[verifier::loop_isolation(false)]
    pub fn empty_arena(px: i32, py: i32) -> (r: Option<Game>)
        ensures
            r is Some <==> interior(px as int, py as int),
            r matches Some(g) ==> {
                &&& g.wf()
                &&& g.floor == 1
                &&& g.score == 0
                &&& g.player_index == 0
                &&& g.entities@ == seq![made(EntityType::Player, px, py)]
                &&& g.events@ == Seq::<Seq<char>>::empty()
                &&& forall|x: int, y: int|
                    in_bounds(x, y) ==> (#[trigger] g.spec_tile(x, y)) == arena_tile(x, y)
                &&& forall|x: int, y: int| #[trigger] g.spec_visible(x, y) <==> g.in_fov(x, y)
                &&& forall|x: int, y: int| #[trigger]
                    g.spec_explored(x, y) <==> g.spec_visible(x, y)
            },
    {
        if !(px >= 1 && px < MAP_WIDTH as i32 - 1 && py >= 1 && py < MAP_HEIGHT as i32 - 1) {
            return None;
        }
        let mut g = Game {
            map: wall_grid(),
            visible_tiles: false_grid(),
            explored_tiles: false_grid(),
            entities: Vec::new(),
            player_index: 0,
            score: 0,
            floor: 1,
            messages: Vec::new(),
            events: Ghost(Seq::empty()),
        };
        let mut y: usize = 1;
        while y < MAP_HEIGHT - 1
            invariant
                1 <= y <= MAP_HEIGHT - 1,
                g.map@.len() == TILE_COUNT,
                forall|a: int, b: int|
                    in_bounds(a, b) ==> (#[trigger] g.spec_tile(a, b)) == if interior(a, b) && b
                        < y as int {
                        TileType::Floor
                    } else {
                        TileType::Wall
                    },
                g == (Game { map: g.map, ..g }),
                g.visible_tiles@.len() == TILE_COUNT,
                g.explored_tiles@.len() == TILE_COUNT,
                g.entities@.len() == 0,
                g.messages@.len() == 0,
                g.events@.len() == 0,
                g.score == 0,
                g.floor == 1,
                g.player_index == 0,
                forall|k: int| 0 <= k < TILE_COUNT ==> !(#[trigger] g.visible_tiles@[k]),
                forall|k: int| 0 <= k < TILE_COUNT ==> !(#[trigger] g.explored_tiles@[k]),
            decreases MAP_HEIGHT - 1 - y,
        {
            let mut x: usize = 1;
            while x < MAP_WIDTH - 1
                invariant
                    1 <= y < MAP_HEIGHT - 1,
                    1 <= x <= MAP_WIDTH - 1,
                    g.map@.len() == TILE_COUNT,
                    forall|a: int, b: int|
                        in_bounds(a, b) ==> (#[trigger] g.spec_tile(a, b)) == if interior(a, b) && (
                        b < y as int || (b == y as int && a < x as int)) {
                            TileType::Floor
                        } else {
                            TileType::Wall
                        },
                    g.visible_tiles@.len() == TILE_COUNT,
                    g.explored_tiles@.len() == TILE_COUNT,
                    g.entities@.len() == 0,
                    g.messages@.len() == 0,
                    g.events@.len() == 0,
                    g.score == 0,
                    g.floor == 1,
                    g.player_index == 0,
                    forall|k: int| 0 <= k < TILE_COUNT ==> !(#[trigger] g.visible_tiles@[k]),
                    forall|k: int| 0 <= k < TILE_COUNT ==> !(#[trigger] g.explored_tiles@[k]),
                decreases MAP_WIDTH - 1 - x,
            {
                g.set_floor(x, y);
                x = x + 1;
            }
            y = y + 1;
        }
        g.set_stairs(MAP_WIDTH - 2, MAP_HEIGHT - 2);
        let ghost terrain = g;
        g.entities.push(Entity::new(EntityType::Player, px, py));
        proof {
            crate::game::lemma_same_grids(g, terrain);
            assert(g.sole_stairs(MAP_WIDTH as int - 2, MAP_HEIGHT as int - 2));
        }
        let ghost placed = g;
        g.update_fov();
        proof {
            crate::game::lemma_same_tiles(g, placed);
            assert(g.sole_stairs(MAP_WIDTH as int - 2, MAP_HEIGHT as int - 2));
            assert forall|k: int| 0 <= k < g.entities@.len() implies g.wf_entity(k) by {
                assert(g.spec_tile(px as int, py as int) == placed.spec_tile(px as int, py as int));
            }
            assert(g.wf());
            assert(g.entities@ =~= seq![made(EntityType::Player, px, py)]);
            assert forall|x: int, y: int|
                in_bounds(x, y) implies (#[trigger] g.spec_tile(x, y)) == arena_tile(x, y) by {
                assert(g.spec_tile(x, y) == placed.spec_tile(x, y));
                assert(placed.spec_tile(x, y) == terrain.spec_tile(x, y));
            }
            assert forall|x: int, y: int| #[trigger]
                g.spec_explored(x, y) <==> g.spec_visible(x, y) by {
                assert(!placed.spec_explored(x, y));
            }
            assert(g.events@ =~= Seq::<Seq<char>>::empty());
        }
        Some(g)
    }

    /// Add one freshly created non-player entity at (x, y), for building
    /// deterministic states: accepted only strictly inside the border, on a
    /// non-Wall tile that no living entity holds.
    pub fn spawn(&mut self, entity_type: EntityType, x: i32, y: i32) -> (r: bool)
        requires
            old(self).wf(),
        ensures
            final(self).wf(),
            r == (entity_type != EntityType::Player && interior(x as int, y as int) && old(
                self,
            ).spec_tile(x as int, y as int) != TileType::Wall && !old(self).spec_blocked(
                x as int,
                y as int,
            )),
            r ==> final(self).entities@ == old(self).entities@.push(made(entity_type, x, y)),
            !r ==> *final(self) == *old(self),
            *final(self) == (Game { entities: final(self).entities, ..*old(self) }),
    {
        if matches!(entity_type, EntityType::Player) {
            return false;
        }
        if !(x >= 1 && x < MAP_WIDTH as i32 - 1 && y >= 1 && y < MAP_HEIGHT as i32 - 1) {
            return false;
        }
        let t = self.map[(y as usize) * MAP_WIDTH + (x as usize)];
        if matches!(t, TileType::Wall) {
            return false;
        }
        if self.is_blocked(x, y) {
            return false;
        }
        let ghost before = *self;
        self.entities.push(Entity::new(entity_type, x, y));
        proof {
            crate::game::lemma_same_grids(*self, before);
            crate::game::lemma_wf_grid_transfer(*self, before);
            assert forall|k: int| 0 <= k < self.entities@.len() implies self.wf_entity(k) by {
                if k < before.entities@.len() {
                    assert(before.wf_entity(k));
                }
            }
        }
        true
    }

    /// Overwrite one entity's combat stats, for building deterministic
    /// states: accepted only for a valid index and stats with
    /// health <= max_health, max_health >= 0 and attack >= 0.
    pub fn set_entity_stats(&mut self, i: usize, health: i32, max_health: i32, attack: i32) -> (r:
        bool)
        requires
            old(self).wf(),
        ensures
            final(self).wf(),
            r == (i < old(self).entities@.len() && health <= max_health && 0 <= max_health && 0
                <= attack),
            r ==> final(self).entities@ == old(self).entities@.update(
                i as int,
                Entity { health, max_health, attack, ..old(self).entities@[i as int] },
            ),
            !r ==> *final(self) == *old(self),
            *final(self) == (Game { entities: final(self).entities, ..*old(self) }),
    {
        if i >= self.entities.len() {
            return false;
        }
        if !(health <= max_health && 0 <= max_health && 0 <= attack) {
            return false;
        }
        let ghost before = *self;
        let mut e = self.entities[i];
        e.health = health;
        e.max_health = max_health;
        e.attack = attack;
        self.entities[i] = e;
        proof {
            crate::game::lemma_same_grids(*self, before);
            crate::game::lemma_wf_grid_transfer(*self, before);
            assert forall|k: int| 0 <= k < self.entities@.len() implies self.wf_entity(k) by {
                assert(before.wf_entity(k));
            }
        }
        true
    }
}

} // verus!
