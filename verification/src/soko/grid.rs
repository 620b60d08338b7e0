use vstd::prelude::*;

use crate::ecs::entity::Entity;
use crate::position::Position;

verus! {

/// The positions of a level's objects.
pub struct LevelData {
    pub boxes: Vec<Position>,
    pub walls: Vec<Position>,
    pub targets: Vec<Position>,
    pub player: Position,
}

#[derive(Clone, Copy, Debug, PartialEq, Eq, Structural)]
pub enum Type {
    Player,
    Box,
    Wall,
    Target,
}

#[derive(Clone, Copy, Debug, PartialEq, Eq, Structural)]
pub enum PlayerAction {
    MoveLeft,
    MoveRight,
    MoveUp,
    MoveDown,
}

/// What an action does: the moves to apply, or the entity that blocks it.
pub enum ActionResult {
    Success(Vec<EntityUpdate>),
    Failure { blocked_by: Entity },
}

/// One entity moving from `prev_pos` to `new_pos`.
#[derive(Clone, Copy)]
pub struct EntityUpdate {
    pub entity: Entity,
    pub prev_pos: Position,
    pub new_pos: Position,
}

#[derive(Clone, Copy, Debug)]
pub struct Location(pub Position);

pub struct Box {}

pub struct Target {
    pub covered: bool,
}

pub struct Player {}

} // verus!
