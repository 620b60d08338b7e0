use game_core::ecs::entity::Entity;
use game_core::level::{ActionResult, GridType, PlayerAction, SokoGrid};
use game_core::position::Position;

fn ent(id: u32) -> Entity {
    Entity { id, generation: 1 }
}

fn pos(x: i32, y: i32) -> Position {
    Position { x, y }
}

#[test]
fn new_grid_has_none_player_at_origin() {
    let g = SokoGrid::new(4, 3);
    assert_eq!(g.player().entity, Entity::none());
    assert_eq!(g.player().position, pos(0, 0));
    assert_eq!(g.player().grid_type, GridType::Player);
    assert!(g.entities().is_empty());
}

#[test]
fn grid_player_moves_into_free_cell() {
    let mut g = SokoGrid::new(10, 10);
    g.set_player(ent(1), pos(2, 2));
    match g.accept_action(PlayerAction::MoveRight) {
        ActionResult::Success(u) => {
            assert_eq!(u.len(), 1);
            assert_eq!(u[0].entity.position, pos(3, 2));
            // the recorded previous position is read after the move
            assert_eq!(u[0].previous_position, pos(3, 2));
        }
        ActionResult::Failure { .. } => panic!("unexpected failure"),
    }
    assert_eq!(g.player().position, pos(3, 2));
}

#[test]
fn grid_player_pushes_box() {
    let mut g = SokoGrid::new(10, 10);
    g.set_player(ent(1), pos(2, 2));
    g.add_entity(ent(2), GridType::Box, pos(2, 1));
    match g.accept_action(PlayerAction::MoveUp) {
        ActionResult::Success(u) => {
            assert_eq!(u.len(), 2);
            assert_eq!(u[1].entity.entity, ent(2));
            assert_eq!(u[1].entity.position, pos(2, 0));
            assert_eq!(u[1].previous_position, pos(2, 1));
        }
        ActionResult::Failure { .. } => panic!("unexpected failure"),
    }
    assert_eq!(g.player().position, pos(2, 1));
    assert_eq!(g.entities()[0].position, pos(2, 0));
}

#[test]
fn grid_wall_and_backed_box_block() {
    let mut g = SokoGrid::new(10, 10);
    g.set_player(ent(1), pos(2, 2));
    g.add_entity(ent(2), GridType::Wall, pos(1, 2));
    g.add_entity(ent(3), GridType::Box, pos(2, 3));
    g.add_entity(ent(4), GridType::Wall, pos(2, 4));
    match g.accept_action(PlayerAction::MoveLeft) {
        ActionResult::Failure { blocked_by } => assert_eq!(blocked_by.entity, ent(2)),
        ActionResult::Success(_) => panic!("unexpected success"),
    }
    match g.accept_action(PlayerAction::MoveDown) {
        ActionResult::Failure { blocked_by } => assert_eq!(blocked_by.entity, ent(4)),
        ActionResult::Success(_) => panic!("unexpected success"),
    }
    assert_eq!(g.player().position, pos(2, 2));
    assert_eq!(g.entities()[1].position, pos(2, 3));
}
