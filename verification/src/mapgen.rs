use vstd::prelude::*;

use crate::entity::{made, Entity, EntityType, TileType};
use crate::fov::lemma_tile_index_injective;
use crate::game::{in_bounds, interior, tile_index, Game, MAP_HEIGHT, MAP_WIDTH, TILE_COUNT};
use crate::rng::{rand_range, rand_ratio};
use crate::text::number_message;

verus! {

/// A grid of solid Wall.
pub(crate) fn wall_grid() -> (r: Vec<TileType>)
    ensures
        r@.len() == TILE_COUNT,
        forall|k: int| 0 <= k < r@.len() ==> (#[trigger] r@[k]) == TileType::Wall,
{
    let mut r: Vec<TileType> = Vec::new();
    while r.len() < TILE_COUNT
        invariant
            r@.len() <= TILE_COUNT,
            forall|k: int| 0 <= k < r@.len() ==> (#[trigger] r@[k]) == TileType::Wall,
        decreases TILE_COUNT - r@.len(),
    {
        r.push(TileType::Wall);
    }
    r
}

/// A grid of false flags.
pub(crate) fn false_grid() -> (r: Vec<bool>)
    ensures
        r@.len() == TILE_COUNT,
        forall|k: int| 0 <= k < r@.len() ==> !(#[trigger] r@[k]),
{
    let mut r: Vec<bool> = Vec::new();
    while r.len() < TILE_COUNT
        invariant
            r@.len() <= TILE_COUNT,
            forall|k: int| 0 <= k < r@.len() ==> !(#[trigger] r@[k]),
        decreases TILE_COUNT - r@.len(),
    {
        r.push(false);
    }
    r
}

impl Game {
    /// Carve one interior tile to Floor; every other tile keeps its type.
    pub(crate) fn set_floor(&mut self, x: usize, y: usize)
        requires
            old(self).map@.len() == TILE_COUNT,
            interior(x as int, y as int),
        ensures
            final(self).map@.len() == TILE_COUNT,
            forall|a: int, b: int|
                in_bounds(a, b) ==> (#[trigger] final(self).spec_tile(a, b)) == if a == x as int
                    && b == y as int {
                    TileType::Floor
                } else {
                    old(self).spec_tile(a, b)
                },
            *final(self) == (Game { map: final(self).map, ..*old(self) }),
    {
        let idx = y * MAP_WIDTH + x;
        self.map[idx] = TileType::Floor;
        proof {
            assert forall|a: int, b: int|
                in_bounds(a, b) && !(a == x as int && b == y as int) implies self.spec_tile(a, b)
                == old(self).spec_tile(a, b) by {
                lemma_tile_index_injective(a, b, x as int, y as int);
            }
        }
    }

    /// Set one interior tile to StairsDown; every other tile keeps its type.
    pub(crate) fn set_stairs(&mut self, x: usize, y: usize)
        requires
            old(self).map@.len() == TILE_COUNT,
            interior(x as int, y as int),
        ensures
            final(self).map@.len() == TILE_COUNT,
            forall|a: int, b: int|
                in_bounds(a, b) ==> (#[trigger] final(self).spec_tile(a, b)) == if a == x as int
                    && b == y as int {
                    TileType::StairsDown
                } else {
                    old(self).spec_tile(a, b)
                },
            *final(self) == (Game { map: final(self).map, ..*old(self) }),
    {
        let idx = y * MAP_WIDTH + x;
        self.map[idx] = TileType::StairsDown;
        proof {
            assert forall|a: int, b: int|
                in_bounds(a, b) && !(a == x as int && b == y as int) implies self.spec_tile(a, b)
                == old(self).spec_tile(a, b) by {
                lemma_tile_index_injective(a, b, x as int, y as int);
            }
        }
    }

    /// Discard the old terrain and generate a floor: ten random rooms, sparse
    /// random corridor tiles, a forced-Floor player spawn, up to ten monsters
    /// and items on free Floor tiles, and one StairsDown tile written last.
    ///
    /// An existing player entity (the sole roster entry) is relocated to the
    /// fresh spawn point with its stats kept; from an empty roster a new
    /// player is created there.
    #[verifier::loop_isolation(false)]
    pub(crate) fn generate_map(&mut self)
        requires
            old(self).entities@.len() <= 1,
            old(self).entities@.len() == 1 ==> {
                let p = old(self).entities@[0];
                &&& p.entity_type == EntityType::Player
                &&& p.is_alive
                &&& p.health <= p.max_health
                &&& 0 <= p.attack
                &&& 0 <= p.max_health
            },
        ensures
            final(self).map@.len() == TILE_COUNT,
            forall|x: int, y: int|
                in_bounds(x, y) && !interior(x, y) ==> (#[trigger] final(self).spec_tile(x, y))
                    == TileType::Wall,
            exists|sx: int, sy: int| final(self).sole_stairs(sx, sy),
            final(self).wf_entities(),
            final(self).player_index == 0,
            1 <= final(self).entities@.len() <= 11,
            final(self).entities@[0].entity_type == EntityType::Player,
            final(self).entities@[0].is_alive,
            interior(final(self).entities@[0].x as int, final(self).entities@[0].y as int),
            old(self).entities@.len() == 1 ==> {
                let p = final(self).entities@[0];
                let q = old(self).entities@[0];
                p.health == q.health && p.max_health == q.max_health && p.attack == q.attack
                    && p.symbol == q.symbol
            },
            old(self).entities@.len() == 0 ==> final(self).entities@[0] == made(
                EntityType::Player,
                final(self).entities@[0].x,
                final(self).entities@[0].y,
            ),
            forall|i: int|
                1 <= i < final(self).entities@.len() ==> {
                    let e = #[trigger] final(self).entities@[i];
                    &&& (e.entity_type == EntityType::Monster || e.entity_type == EntityType::Gold
                        || e.entity_type == EntityType::Potion)
                    &&& e == made(e.entity_type, e.x, e.y)
                },
            *final(self) == (Game {
                map: final(self).map,
                entities: final(self).entities,
                player_index: final(self).player_index,
                ..*old(self)
            }),
    {
        self.map = wall_grid();

        // Rooms: ten random rectangles of Floor, fully inside the border.
        let mut r: usize = 0;
        while r < 10
            invariant
                self.map@.len() == TILE_COUNT,
                forall|x: int, y: int|
                    in_bounds(x, y) && !interior(x, y) ==> (#[trigger] self.spec_tile(x, y))
                        == TileType::Wall,
                forall|x: int, y: int|
                    in_bounds(x, y) ==> (#[trigger] self.spec_tile(x, y)) != TileType::StairsDown,
                *self == (Game { map: self.map, ..*old(self) }),
            decreases 10 - r,
        {
            let room_w = rand_range(4, 10);
            let room_h = rand_range(4, 8);
            let room_x = rand_range(1, MAP_WIDTH - room_w - 1);
            let room_y = rand_range(1, MAP_HEIGHT - room_h - 1);

            let mut y = room_y;
            while y < room_y + room_h
                invariant
                    4 <= room_w < 10,
                    4 <= room_h < 8,
                    1 <= room_x < MAP_WIDTH - room_w - 1,
                    1 <= room_y <= y,
                    y <= room_y + room_h,
                    room_y + room_h < MAP_HEIGHT - 1,
                    self.map@.len() == TILE_COUNT,
                    forall|a: int, b: int|
                        in_bounds(a, b) && !interior(a, b) ==> (#[trigger] self.spec_tile(a, b))
                            == TileType::Wall,
                    forall|a: int, b: int|
                        in_bounds(a, b) ==> (#[trigger] self.spec_tile(a, b))
                            != TileType::StairsDown,
                    *self == (Game { map: self.map, ..*old(self) }),
                decreases room_y + room_h - y,
            {
                let mut x = room_x;
                while x < room_x + room_w
                    invariant
                        4 <= room_w < 10,
                        1 <= room_x <= x,
                        x <= room_x + room_w,
                        room_x + room_w < MAP_WIDTH - 1,
                        1 <= y < MAP_HEIGHT - 1,
                        self.map@.len() == TILE_COUNT,
                        forall|a: int, b: int|
                            in_bounds(a, b) && !interior(a, b) ==> (#[trigger] self.spec_tile(
                                a,
                                b,
                            )) == TileType::Wall,
                        forall|a: int, b: int|
                            in_bounds(a, b) ==> (#[trigger] self.spec_tile(a, b))
                                != TileType::StairsDown,
                        *self == (Game { map: self.map, ..*old(self) }),
                    decreases room_x + room_w - x,
                {
                    self.set_floor(x, y);
                    x = x + 1;
                }
                y = y + 1;
            }
            r = r + 1;
        }

        // Corridors: every interior tile becomes Floor with low probability.
        let mut cy: usize = 1;
        while cy < MAP_HEIGHT - 1
            invariant
                1 <= cy <= MAP_HEIGHT - 1,
                self.map@.len() == TILE_COUNT,
                forall|x: int, y: int|
                    in_bounds(x, y) && !interior(x, y) ==> (#[trigger] self.spec_tile(x, y))
                        == TileType::Wall,
                forall|x: int, y: int|
                    in_bounds(x, y) ==> (#[trigger] self.spec_tile(x, y)) != TileType::StairsDown,
                *self == (Game { map: self.map, ..*old(self) }),
            decreases MAP_HEIGHT - 1 - cy,
        {
            let mut cx: usize = 1;
            while cx < MAP_WIDTH - 1
                invariant
                    1 <= cy < MAP_HEIGHT - 1,
                    1 <= cx <= MAP_WIDTH - 1,
                    self.map@.len() == TILE_COUNT,
                    forall|x: int, y: int|
                        in_bounds(x, y) && !interior(x, y) ==> (#[trigger] self.spec_tile(x, y))
                            == TileType::Wall,
                    forall|x: int, y: int|
                        in_bounds(x, y) ==> (#[trigger] self.spec_tile(x, y))
                            != TileType::StairsDown,
                    *self == (Game { map: self.map, ..*old(self) }),
                decreases MAP_WIDTH - 1 - cx,
            {
                if rand_ratio(1, 10) {
                    self.set_floor(cx, cy);
                }
                cx = cx + 1;
            }
            cy = cy + 1;
        }

        // Player spawn: a forced Floor tile well inside the map.
        let px = rand_range(5, MAP_WIDTH - 5);
        let py = rand_range(5, MAP_HEIGHT - 5);
        self.set_floor(px, py);
        let ghost carved = *self;
        if self.entities.len() == 0 {
            self.entities.push(Entity::new(EntityType::Player, px as i32, py as i32));
        } else {
            let mut p = self.entities[0];
            p.x = px as i32;
            p.y = py as i32;
            self.entities[0] = p;
        }
        self.player_index = 0;

        // Monsters and items: ten attempts at random interior coordinates,
        // each kept only on an unoccupied Floor tile.
        let ghost pl = self.entities@[0];
        proof {
            crate::game::lemma_same_tiles(*self, carved);
            assert(pl.x as int == px as int && pl.y as int == py as int);
        }
        let mut k: usize = 0;
        while k < 10
            invariant
                self.map@.len() == TILE_COUNT,
                forall|x: int, y: int|
                    in_bounds(x, y) && !interior(x, y) ==> (#[trigger] self.spec_tile(x, y))
                        == TileType::Wall,
                forall|x: int, y: int|
                    in_bounds(x, y) ==> (#[trigger] self.spec_tile(x, y)) != TileType::StairsDown,
                k <= 10,
                self.player_index == 0,
                1 <= self.entities@.len() <= 1 + k,
                self.entities@[0] == pl,
                pl.entity_type == EntityType::Player,
                pl.is_alive,
                interior(pl.x as int, pl.y as int),
                self.spec_tile(pl.x as int, pl.y as int) == TileType::Floor,
                forall|i: int|
                    1 <= i < self.entities@.len() ==> {
                        let e = #[trigger] self.entities@[i];
                        &&& (e.entity_type == EntityType::Monster || e.entity_type
                            == EntityType::Gold || e.entity_type == EntityType::Potion)
                        &&& e == made(e.entity_type, e.x, e.y)
                        &&& interior(e.x as int, e.y as int)
                        &&& self.spec_tile(e.x as int, e.y as int) == TileType::Floor
                    },
                self.distinct_positions(),
                *self == (Game {
                    map: self.map,
                    entities: self.entities,
                    player_index: self.player_index,
                    ..*old(self)
                }),
            decreases 10 - k,
        {
            let x = rand_range(1, MAP_WIDTH - 1);
            let y = rand_range(1, MAP_HEIGHT - 1);
            let xi = x as i32;
            let yi = y as i32;
            let ghost before = *self;
            let here = self.map[y * MAP_WIDTH + x];
            if here == TileType::Floor && !self.is_blocked(xi, yi) {
                let t = if rand_ratio(3, 5) {
                    EntityType::Monster
                } else if rand_ratio(1, 2) {
                    EntityType::Gold
                } else {
                    EntityType::Potion
                };
                self.entities.push(Entity::new(t, xi, yi));
            }
            proof {
                crate::game::lemma_same_tiles(*self, before);
            }
            k = k + 1;
        }

        // Stairs last: exactly one StairsDown tile on the finished floor.
        let sx = rand_range(1, MAP_WIDTH - 1);
        let sy = rand_range(1, MAP_HEIGHT - 1);
        self.set_stairs(sx, sy);
        proof {
            assert(self.sole_stairs(sx as int, sy as int));
        }
    }

    /// Start a new run: floor 1, score 0, a freshly generated map with its
    /// roster, a welcome message, and the initial field of view.
    pub fn new() -> (g: Game)
        ensures
            g.wf(),
            g.floor == 1,
            g.score == 0,
            g.player_index == 0,
            1 <= g.entities@.len() <= 11,
            g.player() == made(EntityType::Player, g.player().x, g.player().y),
            forall|i: int|
                1 <= i < g.entities@.len() ==> {
                    let e = #[trigger] g.entities@[i];
                    &&& (e.entity_type == EntityType::Monster || e.entity_type == EntityType::Gold
                        || e.entity_type == EntityType::Potion)
                    &&& e == made(e.entity_type, e.x, e.y)
                },
            g.events@ == seq![
                "Welcome to floor "@ + crate::text::decimal(1) + "!"@,
            ],
            forall|x: int, y: int| #[trigger] g.spec_visible(x, y) <==> g.in_fov(x, y),
            forall|x: int, y: int| #[trigger] g.spec_explored(x, y) <==> g.spec_visible(x, y),
    {
        let mut game = Game {
            map: wall_grid(),
            visible_tiles: false_grid(),
            explored_tiles: false_grid(),
            entities: Vec::new(),
            player_index: 0,
            score: 0,
            floor: 1,
            messages: Vec::new(),
            events: Ghost(Seq::empty()),
        };
        game.generate_map();
        let ghost after_gen = game;
        let msg = number_message("Welcome to floor ", game.floor, "!");
        game.add_message(msg);
        proof {
            crate::game::lemma_wf_transfer(game, after_gen);
        }
        let ghost after_msg = game;
        game.update_fov();
        proof {
            crate::game::lemma_wf_transfer(game, after_msg);
        }
        game
    }
}

} // verus!
