use game_core::ecs::entity::Entity;
use game_core::position::Position;
use game_core::soko::game::{
    action_delta, handle_player_action, move_player, reconcile_level_state, LevelState, Occupant,
};
use game_core::soko::grid::{ActionResult, PlayerAction};

fn ent(id: u32) -> Entity {
    Entity { id, generation: 1 }
}

fn pos(x: i32, y: i32) -> Position {
    Position { x, y }
}

fn updates(r: ActionResult) -> Vec<(Entity, Position, Position)> {
    match r {
        ActionResult::Success(u) => u.iter().map(|u| (u.entity, u.prev_pos, u.new_pos)).collect(),
        ActionResult::Failure { blocked_by } => panic!("blocked by {:?}", blocked_by),
    }
}

fn blocker(r: ActionResult) -> Entity {
    match r {
        ActionResult::Success(_) => panic!("expected a failure"),
        ActionResult::Failure { blocked_by } => blocked_by,
    }
}

#[test]
fn action_deltas() {
    assert_eq!(action_delta(PlayerAction::MoveLeft), pos(-1, 0));
    assert_eq!(action_delta(PlayerAction::MoveRight), pos(1, 0));
    assert_eq!(action_delta(PlayerAction::MoveUp), pos(0, -1));
    assert_eq!(action_delta(PlayerAction::MoveDown), pos(0, 1));
}

#[test]
fn move_into_free_cell() {
    let r = handle_player_action(ent(9), pos(5, 5), &[], PlayerAction::MoveLeft);
    assert_eq!(updates(r), vec![(ent(9), pos(5, 5), pos(4, 5))]);
}

#[test]
fn push_box_into_free_cell() {
    let cells = [Occupant { entity: ent(2), position: pos(5, 4), is_box: true }];
    let r = handle_player_action(ent(9), pos(5, 5), &cells, PlayerAction::MoveUp);
    assert_eq!(
        updates(r),
        vec![(ent(9), pos(5, 5), pos(5, 4)), (ent(2), pos(5, 4), pos(5, 3))]
    );
}

#[test]
fn wall_blocks() {
    let cells = [Occupant { entity: ent(3), position: pos(6, 5), is_box: false }];
    let r = handle_player_action(ent(9), pos(5, 5), &cells, PlayerAction::MoveRight);
    assert_eq!(blocker(r), ent(3));
}

#[test]
fn box_against_wall_blocks_with_the_box() {
    let cells = [
        Occupant { entity: ent(4), position: pos(5, 7), is_box: false },
        Occupant { entity: ent(2), position: pos(5, 6), is_box: true },
    ];
    let r = move_player(ent(9), pos(5, 5), &cells, pos(0, 1));
    assert_eq!(blocker(r), ent(2));
}

#[test]
fn last_occupant_of_a_cell_wins() {
    let cells = [
        Occupant { entity: ent(2), position: pos(4, 5), is_box: true },
        Occupant { entity: ent(3), position: pos(4, 5), is_box: false },
    ];
    let r = move_player(ent(9), pos(5, 5), &cells, pos(-1, 0));
    assert_eq!(blocker(r), ent(3));
}

#[test]
fn reconcile_counts_covered_targets() {
    let targets = [pos(3, 3), pos(4, 4)];
    let boxes = [pos(1, 2), pos(4, 4)];
    let mut level = LevelState { player: ent(9), solved: true };
    let r = reconcile_level_state(&targets, targets.len(), &boxes, &mut level);
    assert_eq!(r.target_covered, vec![false, true]);
    assert_eq!(r.box_covers, vec![false, true]);
    assert!(!level.solved);
    assert_eq!(level.player, ent(9));

    let boxes = [pos(4, 4), pos(3, 3)];
    let r = reconcile_level_state(&targets, targets.len(), &boxes, &mut level);
    assert_eq!(r.target_covered, vec![true, true]);
    assert_eq!(r.box_covers, vec![true, true]);
    assert!(level.solved);
}

#[test]
fn reconcile_with_no_targets_is_solved() {
    let mut level = LevelState { player: ent(1), solved: false };
    let r = reconcile_level_state(&[], 0, &[pos(0, 0)], &mut level);
    assert!(r.target_covered.is_empty());
    assert_eq!(r.box_covers, vec![false]);
    assert!(level.solved);
}

#[test]
fn two_boxes_on_one_target_count_twice() {
    let targets = [pos(1, 1), pos(2, 2)];
    let boxes = [pos(1, 1), pos(1, 1)];
    let mut level = LevelState { player: ent(1), solved: false };
    let r = reconcile_level_state(&targets, targets.len(), &boxes, &mut level);
    assert_eq!(r.target_covered, vec![true, false]);
    assert!(level.solved);
}

#[test]
fn targets_without_a_position_still_count() {
    let targets = [pos(3, 3)];
    let boxes = [pos(3, 3)];
    let mut level = LevelState { player: ent(1), solved: true };
    let r = reconcile_level_state(&targets, 2, &boxes, &mut level);
    assert_eq!(r.target_covered, vec![true]);
    assert!(!level.solved);
    let r = reconcile_level_state(&targets, 1, &boxes, &mut level);
    assert_eq!(r.target_covered, vec![true]);
    assert!(level.solved);
}
