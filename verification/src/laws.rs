use vstd::prelude::*;

use crate::entity::TileType;
use crate::game::{in_bounds, min_val, Game, LOG_CAP, TILE_COUNT};

verus! {

/// Every well-formed state's map is the full fixed-size grid and holds
/// exactly one StairsDown tile: one stairs coordinate exists, and any two
/// in-bounds stairs coordinates coincide. Constructors establish
/// well-formedness and every public method preserves it, so this holds of
/// every generated floor.
pub proof fn lemma_single_stairs(g: Game)
    requires
        g.wf(),
    ensures
        g.map@.len() == TILE_COUNT,
        exists|sx: int, sy: int| g.sole_stairs(sx, sy),
        forall|x1: int, y1: int, x2: int, y2: int|
            in_bounds(x1, y1) && in_bounds(x2, y2) && #[trigger] g.spec_tile(x1, y1)
                == TileType::StairsDown && #[trigger] g.spec_tile(x2, y2) == TileType::StairsDown
                ==> x1 == x2 && y1 == y2,
{
    let (sx, sy) = choose|sx: int, sy: int| g.sole_stairs(sx, sy);
    assert forall|x1: int, y1: int, x2: int, y2: int|
        in_bounds(x1, y1) && in_bounds(x2, y2) && #[trigger] g.spec_tile(x1, y1)
            == TileType::StairsDown && #[trigger] g.spec_tile(x2, y2) == TileType::StairsDown
            implies x1 == x2 && y1 == y2 by {
        assert(x1 == sx && y1 == sy);
        assert(x2 == sx && y2 == sy);
    }
}

/// Every living entity of a well-formed state stands on the map:
/// 0 <= x < 60 and 0 <= y < 20 (in fact strictly inside the border).
pub proof fn lemma_living_in_bounds(g: Game, i: int)
    requires
        g.wf(),
        0 <= i < g.entities@.len(),
        g.entities@[i].is_alive,
    ensures
        in_bounds(g.entities@[i].x as int, g.entities@[i].y as int),
        crate::game::interior(g.entities@[i].x as int, g.entities@[i].y as int),
{
    assert(g.wf_entity(i));
}

/// The message log of a well-formed state never exceeds its cap and holds
/// exactly the most recent events, in chronological order: entry k of the
/// log is event k places from the end of the full event trace.
pub proof fn lemma_log_recent(g: Game)
    requires
        g.wf(),
    ensures
        g.messages@.len() <= LOG_CAP,
        g.messages@.len() == min_val(LOG_CAP as int, g.events@.len() as int),
        forall|k: int|
            0 <= k < g.messages@.len() ==> (#[trigger] g.messages@[k])@ == g.events@[g.events@.len()
                - g.messages@.len() + k],
{
}

/// In a well-formed state, every currently visible tile has been explored:
/// the visible set is a subset of the explored set. The explored set never
/// shrinks across a run: every mutating method of Game ensures that tiles
/// explored before the call stay explored after it.
pub proof fn lemma_visible_subset_explored(g: Game, x: int, y: int)
    requires
        g.wf(),
        g.spec_visible(x, y),
    ensures
        g.spec_explored(x, y),
{
}

} // verus!
