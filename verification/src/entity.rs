use vstd::prelude::*;

verus! {

/// Kind of terrain occupying one map cell.
#[derive(Clone, Copy, Debug, PartialEq, Eq, Structural)]
pub enum TileType {
    Wall,
    Floor,
    StairsDown,
}

/// Kind of actor or item; fixed at creation and determines starting stats.
#[derive(Clone, Copy, Debug, PartialEq, Eq, Structural)]
pub enum EntityType {
    Player,
    Monster,
    Gold,
    Potion,
}

/// Starting (and maximum) health for each entity kind.
pub open spec fn base_health(t: EntityType) -> int {
    match t {
        EntityType::Player => 100,
        EntityType::Monster => 30,
        EntityType::Gold => 0,
        EntityType::Potion => 0,
    }
}

/// Attack strength for each entity kind.
pub open spec fn base_attack(t: EntityType) -> int {
    match t {
        EntityType::Player => 10,
        EntityType::Monster => 5,
        EntityType::Gold => 0,
        EntityType::Potion => 0,
    }
}

/// Display symbol for each entity kind.
pub open spec fn base_symbol(t: EntityType) -> char {
    match t {
        EntityType::Player => '@',
        EntityType::Monster => 'M',
        EntityType::Gold => '$',
        EntityType::Potion => '!',
    }
}

/// The entity that creation yields: kind t at (x, y), alive, with the
/// starting stats of its kind.
pub open spec fn made(t: EntityType, x: i32, y: i32) -> Entity {
    Entity {
        entity_type: t,
        x,
        y,
        health: base_health(t) as i32,
        max_health: base_health(t) as i32,
        attack: base_attack(t) as i32,
        symbol: base_symbol(t),
        is_alive: true,
    }
}

/// One actor or item: position, combat stats, display symbol, and whether it
/// is still alive (for items, "alive" means not yet consumed).
#[derive(Clone, Copy, Debug)]
pub struct Entity {
    pub entity_type: EntityType,
    pub x: i32,
    pub y: i32,
    pub health: i32,
    pub max_health: i32,
    pub attack: i32,
    pub symbol: char,
    pub is_alive: bool,
}

impl Entity {
    /// Create an entity of the given kind at (x, y) with that kind's
    /// starting stats. Every freshly created entity is alive.
    pub fn new(entity_type: EntityType, x: i32, y: i32) -> (e: Entity)
        ensures
            e == made(entity_type, x, y),
    {
        let (health, attack, symbol): (i32, i32, char) = match entity_type {
            EntityType::Player => (100, 10, '@'),
            EntityType::Monster => (30, 5, 'M'),
            EntityType::Gold => (0, 0, '$'),
            EntityType::Potion => (0, 0, '!'),
        };

        Entity {
            entity_type,
            x,
            y,
            health,
            max_health: health,
            attack,
            symbol,
            is_alive: health >= 0,
        }
    }

    pub fn get_x(&self) -> (r: i32)
        ensures
            r == self.x,
    {
        self.x
    }

    pub fn get_y(&self) -> (r: i32)
        ensures
            r == self.y,
    {
        self.y
    }

    pub fn get_health(&self) -> (r: i32)
        ensures
            r == self.health,
    {
        self.health
    }

    pub fn get_max_health(&self) -> (r: i32)
        ensures
            r == self.max_health,
    {
        self.max_health
    }

    pub fn get_symbol(&self) -> (r: String)
        ensures
            r@ == seq![self.symbol],
    {
        crate::text::char_string(self.symbol)
    }

    pub fn get_type(&self) -> (r: EntityType)
        ensures
            r == self.entity_type,
    {
        self.entity_type
    }
}

} // verus!
