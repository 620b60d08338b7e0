use vstd::prelude::*;

use crate::ecs::entity::Entity;
use crate::position::Position;

verus! {

pub struct LevelData {
    pub boxes: Vec<Position>,
    pub walls: Vec<Position>,
    pub targets: Vec<Position>,
    pub player: Position,
}

#[derive(Clone, Copy, Debug, PartialEq, Eq, Structural)]
pub enum Type {
    Player,
    Box,
    Wall,
    Target,
}

pub enum PlayerAction {
    MoveLeft,
    MoveRight,
    MoveUp,
    MoveDown,
}

pub enum ActionResult {
    Success(Vec<EntityUpdate>),
    Failure { blocked_by: Entity },
}

pub struct EntityUpdate {
    pub entity: Entity,
    pub prev_pos: Position,
    pub new_pos: Position,
}

pub struct Location(pub Position);

pub struct Box {
    pub covering_target: bool,
}

pub struct Target {}

} // verus!
