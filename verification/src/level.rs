use vstd::prelude::*;

use crate::ecs::entity::Entity;
use crate::position::Position;

verus! {

pub struct LevelData {
    pub dimensions: Position,
    pub boxes: Vec<Position>,
    pub walls: Vec<Position>,
    pub targets: Vec<Position>,
    pub player: Position,
}

#[derive(Clone, Copy, Debug, PartialEq, Eq, Structural)]
pub enum GridType {
    Player,
    Box,
    Wall,
}

#[derive(Clone, Copy, PartialEq, Eq, Structural)]
pub struct GridEntity {
    pub entity: Entity,
    pub grid_type: GridType,
    pub position: Position,
}

/// An entity found on the grid, with its index in the grid's entity list (`usize::MAX` for
/// the player, who is not in that list).
pub struct GridEntityInfo {
    entity: GridEntity,
    index: usize,
}

pub struct GridTarget {
    entity: GridEntity,
}

pub enum PlayerAction {
    MoveLeft,
    MoveRight,
    MoveUp,
    MoveDown,
}

pub enum ActionResult {
    Success(Vec<EntityUpdate>),
    Failure { blocked_by: GridEntity },
}

#[derive(Clone, Copy)]
pub struct EntityUpdate {
    pub entity: GridEntity,
    pub previous_position: Position,
}

impl ActionResult {
    /// The updates of a success, or the blocking entity of a failure.
    pub open spec fn outcome(&self) -> Result<Seq<EntityUpdate>, GridEntity> {
        match self {
            ActionResult::Success(updates) => Ok(updates@),
            ActionResult::Failure { blocked_by } => Err(*blocked_by),
        }
    }
}

/// The index of the first entity of `s` at `pos`.
pub open spec fn first_at(s: Seq<GridEntity>, pos: Position) -> Option<int>
    decreases s.len(),
{
    if s.len() == 0 {
        None
    } else {
        match first_at(s.drop_last(), pos) {
            Some(i) => Some(i),
            None => if s.last().position == pos {
                Some(s.len() - 1)
            } else {
                None
            },
        }
    }
}

/// `i` is the first index of `s` whose entity is at `pos`.
pub open spec fn is_first_at(s: Seq<GridEntity>, pos: Position, i: int) -> bool {
    &&& 0 <= i < s.len()
    &&& s[i].position == pos
    &&& forall|k: int| 0 <= k < i ==> s[k].position != pos
}

pub proof fn lemma_first_at(s: Seq<GridEntity>, pos: Position)
    ensures
        first_at(s, pos) is None <==> forall|k: int| 0 <= k < s.len() ==> s[k].position != pos,
        first_at(s, pos) matches Some(i) ==> is_first_at(s, pos, i),
        forall|i: int| is_first_at(s, pos, i) ==> first_at(s, pos) == Some(i),
    decreases s.len(),
{
    if s.len() > 0 {
        let p = s.drop_last();
        lemma_first_at(p, pos);
        assert forall|k: int| 0 <= k < p.len() implies p[k] == s[k] by {}
        if first_at(p, pos) is None && s.last().position != pos {
            assert forall|k: int| 0 <= k < s.len() implies s[k].position != pos by {
                if k < p.len() {
                    assert(p[k] == s[k]);
                }
            }
        }
        assert forall|i: int| is_first_at(s, pos, i) implies first_at(s, pos) == Some(i) by {
            if i < p.len() {
                assert(is_first_at(p, pos, i));
            } else {
                assert forall|k: int| 0 <= k < p.len() implies p[k].position != pos by {
                    assert(s[k] == p[k]);
                }
            }
        }
    }
}

/// The abstract state of a [`SokoGrid`].
pub struct SokoGridModel {
    pub width: usize,
    pub height: usize,
    pub player: GridEntity,
    pub entities: Seq<GridEntity>,
    pub targets: Seq<GridEntity>,
}

impl SokoGridModel {
    /// What `ent_at(pos)` finds: the first listed entity at `pos` with its index, else the
    /// player (index `usize::MAX`) if the player stands there.
    pub open spec fn ent_at(self, pos: Position) -> Option<(GridEntity, int)> {
        match first_at(self.entities, pos) {
            Some(i) => Some((self.entities[i], i)),
            None => if self.player.position == pos {
                Some((self.player, usize::MAX as int))
            } else {
                None
            },
        }
    }

    /// `move_player` by `delta` runs without a panic: the target cell fits in `i32`, the
    /// player does not find itself or another player there, and behind a box the backing
    /// cell fits in `i32`.
    pub open spec fn can_move(self, delta: Position) -> bool {
        let target = self.player.position.spec_offset(delta);
        &&& self.player.position.can_offset(delta)
        &&& match self.ent_at(target) {
            Some(found) => {
                &&& !(found.0.grid_type is Player)
                &&& found.0.grid_type is Box ==> target.can_offset(delta)
            },
            None => true,
        }
    }

    /// The state after `move_player` by `delta`, and its outcome. Into a free cell the
    /// player moves; into a box with a free backing cell the player and the box move;
    /// a wall, or the occupant of the backing cell, blocks. A player's update records the
    /// player after the move as its previous position; a box's update records the box's
    /// position before the push.
    pub open spec fn after_move(self, delta: Position) -> (Self, Result<Seq<EntityUpdate>, GridEntity>) {
        let target = self.player.position.spec_offset(delta);
        let moved_player = GridEntity { position: target, ..self.player };
        let moved_self = SokoGridModel { player: moved_player, ..self };
        match self.ent_at(target) {
            None => (
                moved_self,
                Ok(seq![EntityUpdate { entity: moved_player, previous_position: target }]),
            ),
            Some(found) => {
                if found.0.grid_type is Box {
                    let backing = target.spec_offset(delta);
                    match self.ent_at(backing) {
                        None => {
                            let moved_box = GridEntity { position: backing, ..self.entities[found.1] };
                            (
                                SokoGridModel {
                                    entities: self.entities.update(found.1, moved_box),
                                    ..moved_self
                                },
                                Ok(
                                    seq![
                                        EntityUpdate { entity: moved_player, previous_position: target },
                                        EntityUpdate { entity: moved_box, previous_position: target },
                                    ],
                                ),
                            )
                        },
                        Some(blocker) => (self, Err(blocker.0)),
                    }
                } else {
                    (self, Err(found.0))
                }
            },
        }
    }
}

pub open spec fn spec_action_delta(action: PlayerAction) -> Position {
    match action {
        PlayerAction::MoveLeft => Position { x: -1i32, y: 0 },
        PlayerAction::MoveRight => Position { x: 1, y: 0 },
        PlayerAction::MoveUp => Position { x: 0, y: -1i32 },
        PlayerAction::MoveDown => Position { x: 0, y: 1 },
    }
}

/// A sokoban grid: the player, the other entities in a list, and the targets.
pub struct SokoGrid {
    width: usize,
    height: usize,
    player: GridEntity,
    entities: Vec<GridEntity>,
    targets: Vec<GridEntity>,
}

impl View for SokoGrid {
    type V = SokoGridModel;

    closed spec fn view(&self) -> SokoGridModel {
        SokoGridModel {
            width: self.width,
            height: self.height,
            player: self.player,
            entities: self.entities@,
            targets: self.targets@,
        }
    }
}

impl SokoGrid {
    pub fn new(width: usize, height: usize) -> (g: Self)
        ensures
            g@ == (SokoGridModel {
                width,
                height,
                player: GridEntity {
                    entity: Entity::spec_none(),
                    position: Position { x: 0, y: 0 },
                    grid_type: GridType::Player,
                },
                entities: Seq::empty(),
                targets: Seq::empty(),
            }),
    {
        Self {
            width,
            height,
            player: GridEntity {
                entity: Entity::none(),
                position: Position { x: 0, y: 0 },
                grid_type: GridType::Player,
            },
            entities: Vec::new(),
            targets: Vec::new(),
        }
    }

    pub fn player(&self) -> (p: GridEntity)
        ensures
            p == self@.player,
    {
        self.player
    }

    pub fn entities(&self) -> (es: &[GridEntity])
        ensures
            es@ == self@.entities,
    {
        self.entities.as_slice()
    }

    pub fn add_entity(&mut self, entity: Entity, grid_type: GridType, position: Position)
        ensures
            final(self)@ == (SokoGridModel {
                entities: old(self)@.entities.push(GridEntity { entity, position, grid_type }),
                ..old(self)@
            }),
    {
        self.entities.push(GridEntity { entity, position, grid_type: grid_type });
    }

    pub fn set_player(&mut self, entity: Entity, position: Position)
        ensures
            final(self)@ == (SokoGridModel {
                player: GridEntity { entity, position, grid_type: GridType::Player },
                ..old(self)@
            }),
    {
        self.player = GridEntity { entity, position, grid_type: GridType::Player };
    }

    pub fn accept_action(&mut self, action: PlayerAction) -> (r: ActionResult)
        requires
            old(self)@.can_move(spec_action_delta(action)),
        ensures
            final(self)@ == old(self)@.after_move(spec_action_delta(action)).0,
            r.outcome() == old(self)@.after_move(spec_action_delta(action)).1,
    {
        match action {
            PlayerAction::MoveLeft => self.move_player(-1, 0),
            PlayerAction::MoveRight => self.move_player(1, 0),
            PlayerAction::MoveUp => self.move_player(0, -1),
            PlayerAction::MoveDown => self.move_player(0, 1),
        }
    }

    fn ent_at(&self, pos: Position) -> (r: Option<GridEntityInfo>)
        ensures
            match r {
                Some(info) => self@.ent_at(pos) == Some((info.entity, info.index as int)),
                None => self@.ent_at(pos) is None,
            },
    {
        let n = self.entities.len();
        let mut idx: usize = 0;
        while idx < n
            invariant
                n == self.entities@.len(),
                idx <= n,
                forall|k: int| 0 <= k < idx ==> self.entities@[k].position != pos,
            decreases n - idx,
        {
            let entity = self.entities[idx];
            if entity.position == pos {
                proof {
                    lemma_first_at(self.entities@, pos);
                    assert(is_first_at(self.entities@, pos, idx as int));
                }
                return Some(GridEntityInfo { entity, index: idx });
            }
            idx = idx + 1;
        }
        proof {
            lemma_first_at(self.entities@, pos);
        }
        if self.player.position == pos {
            return Some(GridEntityInfo { entity: self.player, index: usize::MAX });
        }
        None
    }

    fn move_player(&mut self, dx: i32, dy: i32) -> (r: ActionResult)
        requires
            old(self)@.can_move(Position { x: dx, y: dy }),
        ensures
            final(self)@ == old(self)@.after_move(Position { x: dx, y: dy }).0,
            r.outcome() == old(self)@.after_move(Position { x: dx, y: dy }).1,
    {
        let mut updates: Vec<EntityUpdate> = Vec::new();

        let delta = Position { x: dx, y: dy };
        let target_player_pos = self.player.position.offset(delta);

        let entity = self.ent_at(target_player_pos);
        match entity {
            None => {
                self.player.position = target_player_pos;
                updates.push(EntityUpdate { entity: self.player, previous_position: self.player.position });
                assert(updates@ =~= seq![
                    EntityUpdate { entity: self.player, previous_position: target_player_pos },
                ]);
            },
            Some(pushed_entity) => match pushed_entity.entity.grid_type {
                GridType::Player => {
                    assert(false);
                    return ActionResult::Failure { blocked_by: pushed_entity.entity };
                },
                GridType::Wall => {
                    return ActionResult::Failure { blocked_by: pushed_entity.entity };
                },
                GridType::Box => {
                    let target_backing_pos = target_player_pos.offset(delta);
                    match self.ent_at(target_backing_pos) {
                        None => {
                            proof {
                                lemma_first_at(self.entities@, target_player_pos);
                            }
                            self.player.position = target_player_pos;
                            let player_update = EntityUpdate {
                                entity: self.player,
                                previous_position: self.player.position,
                            };
                            updates.push(player_update);
                            let mut moved = self.entities[pushed_entity.index];
                            moved.position = target_backing_pos;
                            self.entities.set(pushed_entity.index, moved);
                            let box_update = EntityUpdate {
                                entity: self.entities[pushed_entity.index],
                                previous_position: target_player_pos,
                            };
                            updates.push(box_update);
                            assert(updates@ =~= seq![player_update, box_update]);
                        },
                        Some(backing_ent) => {
                            return ActionResult::Failure { blocked_by: backing_ent.entity };
                        },
                    }
                },
            },
        }
        ActionResult::Success(updates)
    }
}

/// A move leaves the grid's size, targets and number of entities alone; a failed move
/// changes nothing; a successful one puts the player one step further, as the same entity.
pub proof fn law_move_effects(g: SokoGridModel, action: PlayerAction)
    requires
        g.can_move(spec_action_delta(action)),
    ensures
        ({
            let delta = spec_action_delta(action);
            let (after, outcome) = g.after_move(delta);
            &&& after.width == g.width
            &&& after.height == g.height
            &&& after.targets == g.targets
            &&& after.entities.len() == g.entities.len()
            &&& outcome is Err ==> after == g
            &&& outcome is Ok ==> {
                &&& after.player.position == g.player.position.spec_offset(delta)
                &&& after.player.entity == g.player.entity
                &&& after.player.grid_type == g.player.grid_type
            }
        }),
{
    let delta = spec_action_delta(action);
    let target = g.player.position.spec_offset(delta);
    lemma_first_at(g.entities, target);
}

/// Each action is a move by one unit step, with `y` growing downward: left is (-1, 0),
/// right (1, 0), up (0, -1), down (0, 1). `accept_action` is exactly `move_player` by that
/// step (its contract is the model step `after_move` of the step).
pub proof fn law_actions_are_unit_steps()
    ensures
        spec_action_delta(PlayerAction::MoveLeft) == (Position { x: -1i32, y: 0 }),
        spec_action_delta(PlayerAction::MoveRight) == (Position { x: 1, y: 0 }),
        spec_action_delta(PlayerAction::MoveUp) == (Position { x: 0, y: -1i32 }),
        spec_action_delta(PlayerAction::MoveDown) == (Position { x: 0, y: 1 }),
{
}

/// Walking into a cell that holds a listed entity, with a listed entity also in the cell
/// beyond, always fails and changes nothing. When the first entity found in the target
/// cell is a box, the blocker is an entity of the cell beyond it.
pub proof fn law_push_into_occupied_cell_fails(g: SokoGridModel, delta: Position, i: int, k: int)
    requires
        g.can_move(delta),
        delta != (Position { x: 0, y: 0 }),
        0 <= i < g.entities.len(),
        g.entities[i].position == g.player.position.spec_offset(delta),
        0 <= k < g.entities.len(),
        g.entities[k].position == g.player.position.spec_offset(delta).spec_offset(delta),
    ensures
        g.after_move(delta).0 == g,
        g.after_move(delta).1 is Err,
        (forall|j: int|
            is_first_at(g.entities, g.player.position.spec_offset(delta), j)
                ==> #[trigger] g.entities[j].grid_type is Box) ==> g.after_move(delta).1->Err_0.position
            == g.player.position.spec_offset(delta).spec_offset(delta),
{
    let target = g.player.position.spec_offset(delta);
    let backing = target.spec_offset(delta);
    lemma_first_at(g.entities, target);
    lemma_first_at(g.entities, backing);
    let j = first_at(g.entities, target).unwrap();
    assert(is_first_at(g.entities, target, j));
    if g.entities[j].grid_type is Box {
        let b = first_at(g.entities, backing).unwrap();
        assert(is_first_at(g.entities, backing, b));
    }
}

/// A move changes at most one listed entity: the first one found in the player's target
/// cell, which a successful push moves, as the same entity of the same type, into the cell
/// beyond. Every other listed entity keeps its place, and the player, when it moves,
/// arrives in the target cell.
pub proof fn law_move_moves_only_the_pushed_entity(g: SokoGridModel, delta: Position)
    requires
        g.can_move(delta),
        delta != (Position { x: 0, y: 0 }),
    ensures
        ({
            let target = g.player.position.spec_offset(delta);
            let after = g.after_move(delta).0;
            &&& after.entities.len() == g.entities.len()
            &&& forall|k: int|
                0 <= k < g.entities.len() && #[trigger] after.entities[k] != g.entities[k] ==> {
                    &&& is_first_at(g.entities, target, k)
                    &&& g.entities[k].grid_type is Box
                    &&& after.entities[k] == (GridEntity {
                        position: target.spec_offset(delta),
                        ..g.entities[k]
                    })
                }
            &&& g.after_move(delta).1 is Ok ==> after.player.position == target
        }),
{
    let target = g.player.position.spec_offset(delta);
    lemma_first_at(g.entities, target);
}

/// A successful move never puts two listed entities on one cell that did not share it
/// before.
pub proof fn law_move_makes_no_new_overlap(g: SokoGridModel, delta: Position)
    requires
        g.can_move(delta),
        delta != (Position { x: 0, y: 0 }),
    ensures
        g.after_move(delta).1 is Ok ==> forall|k: int, l: int|
            0 <= k < g.entities.len() && 0 <= l < g.entities.len()
                && #[trigger] g.after_move(delta).0.entities[k].position
                == #[trigger] g.after_move(delta).0.entities[l].position ==> g.entities[k].position
                == g.entities[l].position,
{
    let target = g.player.position.spec_offset(delta);
    let backing = target.spec_offset(delta);
    lemma_first_at(g.entities, target);
    lemma_first_at(g.entities, backing);
}

} // verus!
