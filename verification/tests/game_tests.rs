use roguelike::{Entity, EntityType, Game, TileType};

fn arena(px: i32, py: i32) -> Game {
    Game::empty_arena(px, py).expect("arena coordinates must be interior")
}

#[test]
fn entity_new_stats_table() {
    let p = Entity::new(EntityType::Player, 3, 4);
    assert_eq!(p.get_x(), 3);
    assert_eq!(p.get_y(), 4);
    assert_eq!(p.get_health(), 100);
    assert_eq!(p.get_max_health(), 100);
    assert_eq!(p.get_symbol(), "@");
    assert!(matches!(p.get_type(), EntityType::Player));
    assert!(p.is_alive);

    let m = Entity::new(EntityType::Monster, 0, 0);
    assert_eq!(m.get_health(), 30);
    assert_eq!(m.get_max_health(), 30);
    assert_eq!(m.attack, 5);
    assert_eq!(m.get_symbol(), "M");
    assert!(m.is_alive);

    let g = Entity::new(EntityType::Gold, 0, 0);
    assert_eq!(g.get_health(), 0);
    assert_eq!(g.attack, 0);
    assert_eq!(g.get_symbol(), "$");
    assert!(g.is_alive);

    let po = Entity::new(EntityType::Potion, 0, 0);
    assert_eq!(po.get_health(), 0);
    assert_eq!(po.get_symbol(), "!");
    assert!(po.is_alive);
}

#[test]
fn new_game_basics() {
    let g = Game::new();
    assert_eq!(g.get_map_width(), 60);
    assert_eq!(g.get_map_height(), 20);
    assert_eq!(g.get_floor(), 1);
    assert_eq!(g.get_score(), 0);
    assert!(!g.is_game_over());
    let msgs = g.get_messages();
    assert_eq!(msgs.len(), 1);
    assert_eq!(msgs[0], "Welcome to floor 1!");
    let p = g.get_player();
    assert_eq!(p.get_health(), 100);
    assert_eq!(p.get_max_health(), 100);
    assert!(matches!(p.get_type(), EntityType::Player));
    assert!(p.get_x() >= 0 && p.get_x() < 60);
    assert!(p.get_y() >= 0 && p.get_y() < 20);
}

#[test]
fn new_game_exactly_one_stairs() {
    let g = Game::new();
    let mut stairs = 0;
    for y in 0..20 {
        for x in 0..60 {
            if matches!(g.get_tile(x, y), TileType::StairsDown) {
                stairs += 1;
            }
        }
    }
    assert_eq!(stairs, 1);
}

#[test]
fn new_game_border_is_wall() {
    let g = Game::new();
    for x in 0..60 {
        assert!(matches!(g.get_tile(x, 0), TileType::Wall));
        assert!(matches!(g.get_tile(x, 19), TileType::Wall));
    }
    for y in 0..20 {
        assert!(matches!(g.get_tile(0, y), TileType::Wall));
        assert!(matches!(g.get_tile(59, y), TileType::Wall));
    }
}

#[test]
fn out_of_range_tile_is_wall() {
    let g = arena(10, 10);
    assert!(matches!(g.get_tile(60, 0), TileType::Wall));
    assert!(matches!(g.get_tile(0, 20), TileType::Wall));
    assert!(matches!(g.get_tile(999, 999), TileType::Wall));
}

#[test]
fn rejected_moves_change_nothing() {
    let mut g = arena(1, 1);
    // Into the wall on the left.
    assert!(!g.move_player(-1, 0));
    // Into the wall above.
    assert!(!g.move_player(0, -1));
    // Clean off the map.
    assert!(!g.move_player(-100, -100));
    assert!(!g.move_player(0, 2000000000));
    let p = g.get_player();
    assert_eq!(p.get_x(), 1);
    assert_eq!(p.get_y(), 1);
    assert_eq!(p.get_health(), 100);
    assert_eq!(g.get_score(), 0);
    assert_eq!(g.get_floor(), 1);
    assert_eq!(g.get_messages().len(), 0);
}

#[test]
fn plain_move_consumes_turn_and_recenters_fov() {
    let mut g = arena(10, 10);
    assert!(g.is_visible(18, 10));
    assert!(!g.is_visible(19, 10));
    assert!(g.move_player(1, 0));
    let p = g.get_player();
    assert_eq!(p.get_x(), 11);
    assert_eq!(p.get_y(), 10);
    assert_eq!(p.get_health(), 100);
    assert_eq!(g.get_score(), 0);
    // The disc now reaches one tile further east and no longer the far west.
    assert!(g.is_visible(19, 10));
    assert!(!g.is_visible(2, 10));
    // The west tile stays explored although it is no longer visible.
    assert!(g.is_explored(2, 10));
}

#[test]
fn adjacent_monster_acts_after_move() {
    let mut g = arena(10, 10);
    assert!(g.spawn(EntityType::Monster, 12, 10));
    assert!(g.move_player(1, 0));
    let p = g.get_player();
    assert_eq!(p.get_x(), 11);
    // The monster was adjacent after the move and attacked for its 5.
    assert_eq!(p.get_health(), 95);
    let msgs = g.get_messages();
    assert_eq!(msgs[msgs.len() - 1], "Monster attacks for 5 damage!");
    // It attacked instead of moving.
    assert_eq!(g.get_entities_at(12, 10).len(), 1);
}

#[test]
fn monster_kill_in_one_hit() {
    let mut g = arena(10, 10);
    assert!(g.spawn(EntityType::Monster, 11, 10));
    // Health 10 falls in one player hit (attack 10); attack 15 must not land.
    assert!(g.set_entity_stats(1, 10, 30, 15));
    assert!(g.set_entity_stats(0, 10, 100, 10));
    assert!(g.move_player(1, 0));
    // The monster is gone, the player took no retaliation and did not move.
    assert_eq!(g.get_entities_at(11, 10).len(), 0);
    let p = g.get_player();
    assert_eq!(p.get_health(), 10);
    assert_eq!(p.get_x(), 10);
    assert_eq!(g.get_score(), 10);
    let msgs = g.get_messages();
    assert_eq!(msgs[msgs.len() - 1], "Monster defeated!");
}

#[test]
fn monster_retaliates_when_it_survives() {
    let mut g = arena(10, 10);
    assert!(g.spawn(EntityType::Monster, 11, 10));
    assert!(g.move_player(1, 0));
    // The player stayed put, hit for 10, and took 5 back.
    let p = g.get_player();
    assert_eq!(p.get_x(), 10);
    assert_eq!(p.get_health(), 95);
    assert_eq!(g.get_score(), 0);
    let at = g.get_entities_at(11, 10);
    assert_eq!(at.len(), 1);
    assert_eq!(at[0].get_health(), 20);
    assert!(at[0].is_alive);
    let msgs = g.get_messages();
    assert_eq!(msgs[msgs.len() - 1], "Monster hits you for 5 damage!");
}

#[test]
fn gold_pickup_scores_fifty() {
    let mut g = arena(10, 10);
    assert!(g.spawn(EntityType::Gold, 11, 10));
    assert!(g.move_player(1, 0));
    assert_eq!(g.get_score(), 50);
    let p = g.get_player();
    assert_eq!(p.get_x(), 11);
    assert_eq!(p.get_y(), 10);
    // Only the player remains on the tile: the gold is consumed.
    let at = g.get_entities_at(11, 10);
    assert_eq!(at.len(), 1);
    assert!(matches!(at[0].get_type(), EntityType::Player));
    let msgs = g.get_messages();
    assert_eq!(msgs[msgs.len() - 1], "Found gold! +50 score");
}

#[test]
fn potion_heals_thirty() {
    let mut g = arena(10, 10);
    assert!(g.spawn(EntityType::Potion, 11, 10));
    assert!(g.set_entity_stats(0, 50, 100, 10));
    assert!(g.move_player(1, 0));
    let p = g.get_player();
    assert_eq!(p.get_health(), 80);
    assert_eq!(g.get_score(), 0);
    assert_eq!(g.get_entities_at(11, 10).len(), 1);
    let msgs = g.get_messages();
    assert_eq!(msgs[msgs.len() - 1], "Healed 30 HP!");
}

#[test]
fn potion_heal_caps_at_max_health() {
    let mut g = arena(10, 10);
    assert!(g.spawn(EntityType::Potion, 11, 10));
    assert!(g.set_entity_stats(0, 80, 100, 10));
    assert!(g.move_player(1, 0));
    // 80 + 30 caps at 100, not 110.
    assert_eq!(g.get_player().get_health(), 100);
}

#[test]
fn log_keeps_five_most_recent_in_order() {
    let mut g = arena(10, 10);
    assert!(g.set_entity_stats(0, 10, 100, 10));
    assert!(g.spawn(EntityType::Potion, 11, 10));
    for x in 12..=16 {
        assert!(g.spawn(EntityType::Gold, x, 10));
    }
    assert!(g.move_player(1, 0));
    assert_eq!(g.get_messages(), vec!["Healed 30 HP!".to_string()]);
    for step in 0..4 {
        assert!(g.move_player(1, 0));
        let msgs = g.get_messages();
        assert_eq!(msgs.len(), 2 + step);
        assert_eq!(msgs[0], "Healed 30 HP!");
        assert_eq!(msgs[msgs.len() - 1], "Found gold! +50 score");
    }
    // The sixth event evicts the oldest entry.
    assert!(g.move_player(1, 0));
    let msgs = g.get_messages();
    assert_eq!(msgs.len(), 5);
    for m in &msgs {
        assert_eq!(m, "Found gold! +50 score");
    }
    assert_eq!(g.get_score(), 250);
}

#[test]
fn visible_is_subset_of_explored() {
    let mut g = arena(10, 10);
    for _ in 0..6 {
        for y in 0..20 {
            for x in 0..60 {
                if g.is_visible(x, y) {
                    assert!(g.is_explored(x, y));
                }
            }
        }
        g.move_player(1, 1);
    }
}

#[test]
fn explored_never_shrinks() {
    let mut g = arena(10, 10);
    let mut explored: Vec<(i32, i32)> = Vec::new();
    for y in 0..20 {
        for x in 0..60 {
            if g.is_explored(x, y) {
                explored.push((x, y));
            }
        }
    }
    assert!(g.move_player(1, 0));
    assert!(g.move_player(0, 1));
    for (x, y) in explored {
        assert!(g.is_explored(x, y));
    }
}

#[test]
fn descending_stairs_advances_floor_and_score() {
    let mut g = arena(57, 17);
    // The arena stairs sit at (58, 18).
    assert!(g.move_player(1, 1));
    assert_eq!(g.get_floor(), 2);
    assert_eq!(g.get_score(), 100);
    let p = g.get_player();
    assert!(matches!(p.get_type(), EntityType::Player));
    assert_eq!(p.get_max_health(), 100);
    assert!(p.get_health() <= 100);
    // The regenerated floor again holds exactly one StairsDown tile.
    let mut stairs = 0;
    for y in 0..20 {
        for x in 0..60 {
            if matches!(g.get_tile(x, y), TileType::StairsDown) {
                stairs += 1;
            }
        }
    }
    assert_eq!(stairs, 1);
}

#[test]
fn close_monster_approaches_far_monster_waits() {
    let mut g = arena(10, 10);
    assert!(g.spawn(EntityType::Monster, 14, 10));
    assert!(g.spawn(EntityType::Monster, 10, 16));
    assert!(g.move_player(1, 0));
    // Manhattan distance 3 from (11, 10): steps west to (13, 10).
    assert_eq!(g.get_entities_at(14, 10).len(), 0);
    assert_eq!(g.get_entities_at(13, 10).len(), 1);
    // Manhattan distance 7: out of range, stays.
    assert_eq!(g.get_entities_at(10, 16).len(), 1);
}

#[test]
fn monster_blocked_by_another_stays() {
    let mut g = arena(10, 10);
    assert!(g.spawn(EntityType::Monster, 12, 10));
    assert!(g.spawn(EntityType::Monster, 13, 10));
    assert!(g.move_player(1, 0));
    // The first monster is adjacent to (11, 10) and attacks in place; the
    // second wants its tile and stays blocked.
    assert_eq!(g.get_entities_at(12, 10).len(), 1);
    assert_eq!(g.get_entities_at(13, 10).len(), 1);
    assert_eq!(g.get_player().get_health(), 95);
}

#[test]
fn game_over_at_zero_health() {
    let mut g = arena(10, 10);
    assert!(!g.is_game_over());
    assert!(g.set_entity_stats(0, 0, 100, 10));
    assert!(g.is_game_over());
}

#[test]
fn spawn_rejects_invalid_placements() {
    let mut g = arena(10, 10);
    assert!(!g.spawn(EntityType::Player, 5, 5));
    assert!(!g.spawn(EntityType::Monster, 0, 0));
    assert!(!g.spawn(EntityType::Monster, 10, 10));
    assert!(g.spawn(EntityType::Monster, 5, 5));
    assert!(!g.spawn(EntityType::Gold, 5, 5));
    assert_eq!(g.get_entities_at(5, 5).len(), 1);
}

#[test]
fn set_entity_stats_rejects_invalid_values() {
    let mut g = arena(10, 10);
    assert!(!g.set_entity_stats(5, 10, 100, 10));
    assert!(!g.set_entity_stats(0, 101, 100, 10));
    assert!(!g.set_entity_stats(0, 10, -1, 10));
    assert!(!g.set_entity_stats(0, 10, 100, -1));
    assert_eq!(g.get_player().get_health(), 100);
}

#[test]
fn visibility_queries_out_of_bounds_are_false() {
    let g = arena(10, 10);
    assert!(g.is_visible(10, 10));
    assert!(!g.is_visible(-1, 5));
    assert!(!g.is_visible(60, 5));
    assert!(!g.is_explored(-1, 5));
    assert!(!g.is_explored(5, 20));
}

#[test]
fn arena_rejects_border_coordinates() {
    assert!(Game::empty_arena(0, 5).is_none());
    assert!(Game::empty_arena(59, 5).is_none());
    assert!(Game::empty_arena(5, 0).is_none());
    assert!(Game::empty_arena(5, 19).is_none());
    assert!(Game::empty_arena(1, 1).is_some());
}
