use vstd::prelude::*;

use crate::game::{in_bounds, tile_index, Game, FOV_RADIUS, MAP_HEIGHT, MAP_WIDTH, TILE_COUNT};

verus! {

/// Squared Euclidean distance between two coordinates.
pub open spec fn dist2(ax: int, ay: int, bx: int, by: int) -> int {
    (ax - bx) * (ax - bx) + (ay - by) * (ay - by)
}

/// The scan of the field-of-view square has already passed the offset of
/// (x, y) from (px, py), given that the scan stands at row dy, column dx.
pub open spec fn fov_scanned(px: int, py: int, x: int, y: int, dy: int, dx: int) -> bool {
    y - py < dy || (y - py == dy && x - px < dx)
}

/// Within the field-of-view disc, each coordinate offset is at most the
/// radius in absolute value.
proof fn lemma_disc_bounds(ax: int, ay: int, bx: int, by: int)
    requires
        dist2(ax, ay, bx, by) <= 64,
    ensures
        -8 <= ax - bx <= 8,
        -8 <= ay - by <= 8,
{
    assert(-8 <= ax - bx <= 8 && -8 <= ay - by <= 8) by (nonlinear_arith)
        requires
            (ax - bx) * (ax - bx) + (ay - by) * (ay - by) <= 64,
    ;
}

/// Two distinct in-bounds coordinates have distinct grid indices.
pub proof fn lemma_tile_index_injective(x1: int, y1: int, x2: int, y2: int)
    ensures
        in_bounds(x1, y1) && in_bounds(x2, y2) && tile_index(x1, y1) == tile_index(x2, y2) ==> (x1
            == x2 && y1 == y2),
{
}

/// The square of a small number.
fn sq(v: i32) -> (r: i64)
    requires
        -100 <= v <= 100,
    ensures
        r as int == (v as int) * (v as int),
        0 <= r <= 10000,
{
    proof {
        assert(0 <= (v as int) * (v as int) <= 10000) by (nonlinear_arith)
            requires
                -100 <= v as int <= 100,
        ;
    }
    (v as i64) * (v as i64)
}

impl Game {
    /// (x, y) lies on the map, within the field-of-view radius of the player.
    pub open spec fn in_fov(self, x: int, y: int) -> bool {
        in_bounds(x, y) && dist2(x, y, self.player().x as int, self.player().y as int) <= (
        FOV_RADIUS as int) * (FOV_RADIUS as int)
    }

    /// Recompute the visible set as the full disc of radius FOV_RADIUS around
    /// the player (walls do not block sight), adding every visible tile to
    /// the explored set.
    #[verifier::loop_isolation(false)]
    pub(crate) fn update_fov(&mut self)
        requires
            old(self).explored_tiles@.len() == TILE_COUNT,
            old(self).player_index < old(self).entities@.len(),
            in_bounds(old(self).player().x as int, old(self).player().y as int),
        ensures
            final(self).visible_tiles@.len() == TILE_COUNT,
            final(self).explored_tiles@.len() == TILE_COUNT,
            forall|x: int, y: int|
                #[trigger] final(self).spec_visible(x, y) <==> final(self).in_fov(x, y),
            forall|x: int, y: int|
                #[trigger] final(self).spec_explored(x, y) <==> (old(self).spec_explored(x, y)
                    || final(self).spec_visible(x, y)),
            *final(self) == (Game {
                visible_tiles: final(self).visible_tiles,
                explored_tiles: final(self).explored_tiles,
                ..*old(self)
            }),
    {
        let mut cleared: Vec<bool> = Vec::new();
        while cleared.len() < TILE_COUNT
            invariant
                cleared@.len() <= TILE_COUNT,
                forall|k: int| 0 <= k < cleared@.len() ==> !(#[trigger] cleared@[k]),
            decreases TILE_COUNT - cleared@.len(),
        {
            cleared.push(false);
        }
        self.visible_tiles = cleared;

        let px = self.entities[self.player_index].x;
        let py = self.entities[self.player_index].y;
        proof {
            assert forall|x: int, y: int| #[trigger]
                self.spec_visible(x, y) <==> (self.in_fov(x, y) && fov_scanned(
                    px as int,
                    py as int,
                    x,
                    y,
                    -(FOV_RADIUS as int),
                    -(FOV_RADIUS as int),
                )) by {
                if self.in_fov(x, y) {
                    lemma_disc_bounds(x, y, px as int, py as int);
                }
            }
        }
        let mut dy: i32 = -FOV_RADIUS;
        while dy <= FOV_RADIUS
            invariant
                -(FOV_RADIUS as int) <= dy as int <= FOV_RADIUS as int + 1,
                self.visible_tiles@.len() == TILE_COUNT,
                self.explored_tiles@.len() == TILE_COUNT,
                forall|x: int, y: int|
                    #[trigger] self.spec_visible(x, y) <==> (self.in_fov(x, y) && fov_scanned(
                        px as int,
                        py as int,
                        x,
                        y,
                        dy as int,
                        -(FOV_RADIUS as int),
                    )),
                forall|x: int, y: int|
                    #[trigger] self.spec_explored(x, y) <==> (old(self).spec_explored(x, y)
                        || self.spec_visible(x, y)),
                *self == (Game {
                    visible_tiles: self.visible_tiles,
                    explored_tiles: self.explored_tiles,
                    ..*old(self)
                }),
            decreases FOV_RADIUS as int + 1 - dy as int,
        {
            let mut dx: i32 = -FOV_RADIUS;
            while dx <= FOV_RADIUS
                invariant
                    -(FOV_RADIUS as int) <= dy as int <= FOV_RADIUS as int,
                    -(FOV_RADIUS as int) <= dx as int <= FOV_RADIUS as int + 1,
                    self.visible_tiles@.len() == TILE_COUNT,
                    self.explored_tiles@.len() == TILE_COUNT,
                    forall|x: int, y: int|
                        #[trigger] self.spec_visible(x, y) <==> (self.in_fov(x, y) && fov_scanned(
                            px as int,
                            py as int,
                            x,
                            y,
                            dy as int,
                            dx as int,
                        )),
                    forall|x: int, y: int|
                        #[trigger] self.spec_explored(x, y) <==> (old(self).spec_explored(x, y)
                            || self.spec_visible(x, y)),
                    *self == (Game {
                        visible_tiles: self.visible_tiles,
                        explored_tiles: self.explored_tiles,
                        ..*old(self)
                    }),
                decreases FOV_RADIUS as int + 1 - dx as int,
            {
                let x = px + dx;
                let y = py + dy;
                let ghost pre = *self;
                if 0 <= x && x < MAP_WIDTH as i32 && 0 <= y && y < MAP_HEIGHT as i32 {
                    if sq(dx) + sq(dy) <= (FOV_RADIUS as i64) * (FOV_RADIUS as i64) {
                        let idx = (y as usize) * MAP_WIDTH + (x as usize);
                        self.visible_tiles[idx] = true;
                        self.explored_tiles[idx] = true;
                    }
                }
                proof {
                    assert forall|a: int, b: int| #[trigger]
                        self.spec_visible(a, b) <==> (self.in_fov(a, b) && fov_scanned(
                            px as int,
                            py as int,
                            a,
                            b,
                            dy as int,
                            dx as int + 1,
                        )) by {
                        if in_bounds(a, b) {
                            if a == x as int && b == y as int {
                                if self.in_fov(a, b) {
                                    lemma_disc_bounds(a, b, px as int, py as int);
                                }
                            } else {
                                lemma_tile_index_injective(a, b, x as int, y as int);
                                assert(self.spec_visible(a, b) == pre.spec_visible(a, b));
                            }
                        }
                    }
                    assert forall|a: int, b: int| #[trigger]
                        self.spec_explored(a, b) <==> (old(self).spec_explored(a, b)
                            || self.spec_visible(a, b)) by {
                        if in_bounds(a, b) {
                            if !(a == x as int && b == y as int) {
                                lemma_tile_index_injective(a, b, x as int, y as int);
                                assert(self.spec_explored(a, b) == pre.spec_explored(a, b));
                                assert(self.spec_visible(a, b) == pre.spec_visible(a, b));
                            }
                        }
                    }
                }
                dx = dx + 1;
            }
            proof {
                assert forall|x: int, y: int| #[trigger]
                    self.spec_visible(x, y) <==> (self.in_fov(x, y) && fov_scanned(
                        px as int,
                        py as int,
                        x,
                        y,
                        dy as int + 1,
                        -(FOV_RADIUS as int),
                    )) by {
                    if self.in_fov(x, y) {
                        lemma_disc_bounds(x, y, px as int, py as int);
                    }
                }
            }
            dy = dy + 1;
        }
        proof {
            assert forall|x: int, y: int| #[trigger]
                self.spec_visible(x, y) <==> self.in_fov(x, y) by {
                if self.in_fov(x, y) {
                    lemma_disc_bounds(x, y, px as int, py as int);
                }
            }
        }
    }
}

} // verus!
