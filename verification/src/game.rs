use vstd::prelude::*;

use crate::entity::{Entity, EntityType, TileType};

verus! {

pub const MAP_WIDTH: usize = 60;

pub const MAP_HEIGHT: usize = 20;

pub const TILE_COUNT: usize = 60 * 20;

pub const FOV_RADIUS: i32 = 8;

pub const LOG_CAP: usize = 5;

/// A coordinate lies on the map.
pub open spec fn in_bounds(x: int, y: int) -> bool {
    0 <= x < MAP_WIDTH as int && 0 <= y < MAP_HEIGHT as int
}

/// A coordinate lies strictly inside the one-tile border of the map.
pub open spec fn interior(x: int, y: int) -> bool {
    1 <= x < MAP_WIDTH as int - 1 && 1 <= y < MAP_HEIGHT as int - 1
}

/// Index of a coordinate in the row-major tile grid.
pub open spec fn tile_index(x: int, y: int) -> int {
    y * (MAP_WIDTH as int) + x
}

/// An integer clamped into the i32 range, the result of saturating i32
/// arithmetic.
pub open spec fn clamp_i32(v: int) -> int {
    if v < i32::MIN as int {
        i32::MIN as int
    } else if v > i32::MAX as int {
        i32::MAX as int
    } else {
        v
    }
}

/// The whole state of one run: tile grid, visibility, the entity roster,
/// score, floor number and the bounded message log.
///
/// The fields are public so that the specifications below can speak of them;
/// the intended mutators are the public methods, and every public method
/// requires and preserves `wf`. `events` is the ghost trace of every message
/// ever logged; the executable `messages` field always holds its last
/// (at most `LOG_CAP`) entries.
pub struct Game {
    pub map: Vec<TileType>,
    pub visible_tiles: Vec<bool>,
    pub explored_tiles: Vec<bool>,
    pub entities: Vec<Entity>,
    pub player_index: usize,
    pub score: i32,
    pub floor: i32,
    pub messages: Vec<String>,
    pub events: Ghost<Seq<Seq<char>>>,
}

impl Game {
    /// The tile at an in-bounds coordinate.
    pub open spec fn spec_tile(self, x: int, y: int) -> TileType {
        self.map@[tile_index(x, y)]
    }

    /// The coordinate is on the map and currently visible.
    pub open spec fn spec_visible(self, x: int, y: int) -> bool {
        in_bounds(x, y) && self.visible_tiles@[tile_index(x, y)]
    }

    /// The coordinate is on the map and has ever been visible.
    pub open spec fn spec_explored(self, x: int, y: int) -> bool {
        in_bounds(x, y) && self.explored_tiles@[tile_index(x, y)]
    }

    /// The player entity.
    pub open spec fn player(self) -> Entity {
        self.entities@[self.player_index as int]
    }

    /// StairsDown appears at (sx, sy) and nowhere else.
    pub open spec fn sole_stairs(self, sx: int, sy: int) -> bool {
        &&& in_bounds(sx, sy)
        &&& forall|x: int, y: int|
            in_bounds(x, y) ==> ((#[trigger] self.spec_tile(x, y)) == TileType::StairsDown <==> (x
                == sx && y == sy))
    }

    /// The grids have their fixed sizes, the border is solid Wall, and the
    /// map holds exactly one StairsDown tile.
    pub open spec fn wf_grid(self) -> bool {
        &&& self.map@.len() == TILE_COUNT
        &&& self.visible_tiles@.len() == TILE_COUNT
        &&& self.explored_tiles@.len() == TILE_COUNT
        &&& forall|x: int, y: int|
            in_bounds(x, y) && !interior(x, y) ==> (#[trigger] self.spec_tile(x, y))
                == TileType::Wall
        &&& exists|sx: int, sy: int| self.sole_stairs(sx, sy)
    }

    /// Validity of one entity record: a living entity stands strictly inside
    /// the border on a non-Wall tile, and its stats are consistent.
    pub open spec fn wf_entity(self, i: int) -> bool {
        let e = self.entities@[i];
        &&& e.is_alive ==> interior(e.x as int, e.y as int)
        &&& e.is_alive ==> self.spec_tile(e.x as int, e.y as int) != TileType::Wall
        &&& e.health <= e.max_health
        &&& 0 <= e.attack
        &&& 0 <= e.max_health
    }

    /// No two living entities share a tile.
    pub open spec fn distinct_positions(self) -> bool {
        forall|i: int, j: int|
            #![trigger self.entities@[i], self.entities@[j]]
            0 <= i < j < self.entities@.len() && self.entities@[i].is_alive
                && self.entities@[j].is_alive ==> !(self.entities@[i].x == self.entities@[j].x
                && self.entities@[i].y == self.entities@[j].y)
    }

    /// The roster always holds the one living player entity, at
    /// `player_index`, and every record is valid.
    pub open spec fn wf_entities(self) -> bool {
        &&& 0 < self.entities@.len()
        &&& self.player_index < self.entities@.len()
        &&& self.player().entity_type == EntityType::Player
        &&& self.player().is_alive
        &&& forall|i: int|
            0 <= i < self.entities@.len() && i != self.player_index as int ==> (
            #[trigger] self.entities@[i]).entity_type != EntityType::Player
        &&& forall|i: int| 0 <= i < self.entities@.len() ==> self.wf_entity(i)
        &&& self.distinct_positions()
    }

    /// The executable log holds exactly the most recent entries of the event
    /// trace, at most `LOG_CAP` of them, oldest first.
    pub open spec fn log_ok(self) -> bool {
        &&& self.messages@.len() == if self.events@.len() < LOG_CAP as int {
            self.events@.len() as int
        } else {
            LOG_CAP as int
        }
        &&& forall|k: int|
            0 <= k < self.messages@.len() ==> (#[trigger] self.messages@[k])@ == self.events@[
            self.events@.len() - self.messages@.len() + k]
    }

    /// Well-formedness of the whole game state. Established by the
    /// constructors and preserved by every public method.
    pub open spec fn wf(self) -> bool {
        &&& self.wf_grid()
        &&& self.wf_entities()
        &&& self.log_ok()
        &&& forall|x: int, y: int| #[trigger]
            self.spec_visible(x, y) ==> self.spec_explored(x, y)
        &&& 0 <= self.score
        &&& 1 <= self.floor
    }

    /// Some living entity stands at (x, y).
    pub open spec fn spec_blocked(self, x: int, y: int) -> bool {
        someone_at(self.entities@, x, y)
    }

    /// Whether any living entity stands at (x, y).
    pub(crate) fn is_blocked(&self, x: i32, y: i32) -> (r: bool)
        ensures
            r == self.spec_blocked(x as int, y as int),
    {
        let mut i: usize = 0;
        while i < self.entities.len()
            invariant
                0 <= i <= self.entities@.len(),
                forall|k: int|
                    0 <= k < i ==> !((#[trigger] self.entities@[k]).is_alive
                        && self.entities@[k].x == x && self.entities@[k].y == y),
            decreases self.entities@.len() - i,
        {
            let e = self.entities[i];
            if e.x == x && e.y == y && e.is_alive {
                return true;
            }
            i = i + 1;
        }
        false
    }

    /// Append one event to the log, evicting the oldest entry beyond the cap.
    pub(crate) fn add_message(&mut self, msg: String)
        requires
            old(self).log_ok(),
        ensures
            final(self).events@ == old(self).events@.push(msg@),
            final(self).log_ok(),
            *final(self) == (Game {
                messages: final(self).messages,
                events: final(self).events,
                ..*old(self)
            }),
    {
        self.events = Ghost(self.events@.push(msg@));
        self.messages.push(msg);
        if self.messages.len() > LOG_CAP {
            let _ = self.messages.remove(0);
        }
    }

    /// The tile at (x, y), or Wall for a coordinate off the map.
    pub fn get_tile(&self, x: usize, y: usize) -> (r: TileType)
        requires
            self.wf(),
        ensures
            r == if in_bounds(x as int, y as int) {
                self.spec_tile(x as int, y as int)
            } else {
                TileType::Wall
            },
    {
        if x < MAP_WIDTH && y < MAP_HEIGHT {
            self.map[y * MAP_WIDTH + x]
        } else {
            TileType::Wall
        }
    }

    /// Whether (x, y) is currently in the field of view.
    pub fn is_visible(&self, x: i32, y: i32) -> (r: bool)
        requires
            self.wf(),
        ensures
            r == self.spec_visible(x as int, y as int),
    {
        if 0 <= x && x < MAP_WIDTH as i32 && 0 <= y && y < MAP_HEIGHT as i32 {
            self.visible_tiles[(y as usize) * MAP_WIDTH + (x as usize)]
        } else {
            false
        }
    }

    /// Whether (x, y) has ever been visible.
    pub fn is_explored(&self, x: i32, y: i32) -> (r: bool)
        requires
            self.wf(),
        ensures
            r == self.spec_explored(x as int, y as int),
    {
        if 0 <= x && x < MAP_WIDTH as i32 && 0 <= y && y < MAP_HEIGHT as i32 {
            self.explored_tiles[(y as usize) * MAP_WIDTH + (x as usize)]
        } else {
            false
        }
    }

    /// All living entities standing at (x, y), in roster order.
    #[verifier::loop_isolation(false)]
    pub fn get_entities_at(&self, x: i32, y: i32) -> (r: Vec<Entity>)
        ensures
            r@ == self.entities@.filter(
                |e: Entity| e.is_alive && e.x == x && e.y == y,
            ),
    {
        let ghost pred = |e: Entity| e.is_alive && e.x == x && e.y == y;
        let mut r: Vec<Entity> = Vec::new();
        let mut i: usize = 0;
        proof {
            assert(self.entities@.take(0int) =~= Seq::<Entity>::empty());
            assert(self.entities@.take(0int).filter(pred) =~= Seq::<Entity>::empty());
        }
        while i < self.entities.len()
            invariant
                0 <= i <= self.entities@.len(),
                r@ == self.entities@.take(i as int).filter(pred),
            decreases self.entities@.len() - i,
        {
            let e = self.entities[i];
            let ghost prev = r@;
            if e.is_alive && e.x == x && e.y == y {
                r.push(e);
            }
            i = i + 1;
            proof {
                assert(self.entities@.take(i as int) =~= self.entities@.take(i as int - 1)
                    + seq![e]);
                Seq::<Entity>::filter_distributes_over_add(
                    self.entities@.take(i as int - 1),
                    seq![e],
                    pred,
                );
                reveal_with_fuel(Seq::filter, 2);
                assert(seq![e].drop_last() =~= Seq::<Entity>::empty());
                assert(seq![e].last() == e);
                if pred(e) {
                    assert(seq![e].filter(pred) =~= seq![e]);
                    assert(r@ =~= prev + seq![e]);
                } else {
                    assert(seq![e].filter(pred) =~= Seq::<Entity>::empty());
                    assert(r@ =~= prev);
                }
            }
        }
        proof {
            assert(self.entities@.take(self.entities@.len() as int) =~= self.entities@);
        }
        r
    }

    /// A copy of the player entity.
    pub fn get_player(&self) -> (r: Entity)
        requires
            self.wf(),
        ensures
            r == self.player(),
    {
        self.entities[self.player_index]
    }

    pub fn get_score(&self) -> (r: i32)
        ensures
            r == self.score,
    {
        self.score
    }

    pub fn get_floor(&self) -> (r: i32)
        ensures
            r == self.floor,
    {
        self.floor
    }

    /// A copy of the current message log, oldest first.
    pub fn get_messages(&self) -> (r: Vec<String>)
        ensures
            r@.len() == self.messages@.len(),
            forall|k: int| 0 <= k < r@.len() ==> (#[trigger] r@[k])@ == self.messages@[k]@,
    {
        let mut r: Vec<String> = Vec::new();
        let mut i: usize = 0;
        while i < self.messages.len()
            invariant
                0 <= i <= self.messages@.len(),
                r@.len() == i,
                forall|k: int| 0 <= k < i ==> (#[trigger] r@[k])@ == self.messages@[k]@,
            decreases self.messages@.len() - i,
        {
            r.push(self.messages[i].clone());
            i = i + 1;
        }
        r
    }

    /// The game is over once the player's health has reached zero.
    pub fn is_game_over(&self) -> (r: bool)
        requires
            self.wf(),
        ensures
            r == (self.player().health <= 0),
    {
        self.entities[self.player_index].health <= 0
    }

    pub fn get_map_width(&self) -> (r: usize)
        ensures
            r == MAP_WIDTH,
    {
        MAP_WIDTH
    }

    pub fn get_map_height(&self) -> (r: usize)
        ensures
            r == MAP_HEIGHT,
    {
        MAP_HEIGHT
    }
}

/// Some living entity of the roster stands at (x, y).
pub open spec fn someone_at(es: Seq<Entity>, x: int, y: int) -> bool {
    exists|i: int|
        0 <= i < es.len() && (#[trigger] es[i]).is_alive && es[i].x as int == x && es[i].y as int
            == y
}

/// The smaller of two integers.
pub open spec fn min_val(a: int, b: int) -> int {
    if a < b {
        a
    } else {
        b
    }
}

/// Two states with the same tile grid agree on every tile.
pub proof fn lemma_same_tiles(g1: Game, g2: Game)
    requires
        g1.map@ == g2.map@,
    ensures
        forall|x: int, y: int| #[trigger] g1.spec_tile(x, y) == g2.spec_tile(x, y),
{
}

/// Two states with the same grids agree on every tile, visibility flag and
/// exploration flag.
pub proof fn lemma_same_grids(g1: Game, g2: Game)
    requires
        g1.map@ == g2.map@,
        g1.visible_tiles@ == g2.visible_tiles@,
        g1.explored_tiles@ == g2.explored_tiles@,
    ensures
        forall|x: int, y: int| #[trigger] g1.spec_tile(x, y) == g2.spec_tile(x, y),
        forall|x: int, y: int| #[trigger] g1.spec_visible(x, y) == g2.spec_visible(x, y),
        forall|x: int, y: int| #[trigger] g1.spec_explored(x, y) == g2.spec_explored(x, y),
{
}

/// Grid well-formedness carries over to any state that holds the same map
/// and grids of the same sizes.
pub proof fn lemma_wf_grid_transfer(g1: Game, g2: Game)
    requires
        g1.map@ == g2.map@,
        g1.visible_tiles@.len() == g2.visible_tiles@.len(),
        g1.explored_tiles@.len() == g2.explored_tiles@.len(),
        g2.wf_grid(),
    ensures
        g1.wf_grid(),
{
    lemma_same_tiles(g1, g2);
    let (sx, sy) = choose|sx: int, sy: int| g2.sole_stairs(sx, sy);
    assert(g1.sole_stairs(sx, sy));
}

/// Grid and roster well-formedness carry over to any state that holds the
/// same map, roster and player index.
pub proof fn lemma_wf_transfer(g1: Game, g2: Game)
    requires
        g1.map@ == g2.map@,
        g1.entities@ == g2.entities@,
        g1.player_index == g2.player_index,
        g1.visible_tiles@.len() == TILE_COUNT,
        g1.explored_tiles@.len() == TILE_COUNT,
        g2.map@.len() == TILE_COUNT,
        forall|x: int, y: int|
            in_bounds(x, y) && !interior(x, y) ==> (#[trigger] g2.spec_tile(x, y))
                == TileType::Wall,
        exists|sx: int, sy: int| g2.sole_stairs(sx, sy),
        g2.wf_entities(),
    ensures
        g1.wf_grid(),
        g1.wf_entities(),
{
    lemma_same_tiles(g1, g2);
    let (sx, sy) = choose|sx: int, sy: int| g2.sole_stairs(sx, sy);
    assert(g1.sole_stairs(sx, sy));
    assert forall|i: int| 0 <= i < g1.entities@.len() implies g1.wf_entity(i) by {
        assert(g2.wf_entity(i));
    }
}

/// i32 addition that saturates at the ends of the i32 range.
pub(crate) fn sat_add(a: i32, b: i32) -> (r: i32)
    ensures
        r as int == clamp_i32(a + b),
{
    let s: i64 = a as i64 + b as i64;
    if s > i32::MAX as i64 {
        i32::MAX
    } else if s < i32::MIN as i64 {
        i32::MIN
    } else {
        s as i32
    }
}

/// i32 subtraction that saturates at the ends of the i32 range.
pub(crate) fn sat_sub(a: i32, b: i32) -> (r: i32)
    ensures
        r as int == clamp_i32(a - b),
{
    let s: i64 = a as i64 - b as i64;
    if s > i32::MAX as i64 {
        i32::MAX
    } else if s < i32::MIN as i64 {
        i32::MIN
    } else {
        s as i32
    }
}

} // verus!
