use vstd::prelude::*;

use crate::ecs::entity::Entity;
use crate::position::Position;
use crate::soko::grid::{ActionResult, EntityUpdate, PlayerAction};

verus! {

/// The state of the level that the rules keep: the player's entity and whether every
/// target is covered.
pub struct LevelState {
    pub player: Entity,
    pub solved: bool,
}

/// An entity that can stand in the player's way: one with a location that is neither a
/// target nor the player, with whether it is a box.
#[derive(Clone, Copy)]
pub struct Occupant {
    pub entity: Entity,
    pub position: Position,
    pub is_box: bool,
}

impl ActionResult {
    /// The updates of a success, or the blocking entity of a failure.
    pub open spec fn outcome(&self) -> Result<Seq<EntityUpdate>, Entity> {
        match self {
            ActionResult::Success(updates) => Ok(updates@),
            ActionResult::Failure { blocked_by } => Err(*blocked_by),
        }
    }
}

/// The unit step of each action; up is towards smaller `y`.
pub open spec fn spec_action_delta(action: PlayerAction) -> Position {
    match action {
        PlayerAction::MoveLeft => Position { x: -1i32, y: 0 },
        PlayerAction::MoveRight => Position { x: 1, y: 0 },
        PlayerAction::MoveUp => Position { x: 0, y: -1i32 },
        PlayerAction::MoveDown => Position { x: 0, y: 1 },
    }
}

/// The occupants found at the adjacent and the far cell, scanning `cells` in order: for
/// each cell, a match with the adjacent cell replaces the adjacent occupant, otherwise a
/// match with the far cell replaces the far occupant (the last match wins).
pub open spec fn scan_cells(cells: Seq<Occupant>, adj: Position, far: Position) -> (
    Option<Occupant>,
    Option<Occupant>,
)
    decreases cells.len(),
{
    if cells.len() == 0 {
        (None, None)
    } else {
        let prev = scan_cells(cells.drop_last(), adj, far);
        let c = cells.last();
        if c.position == adj {
            (Some(c), prev.1)
        } else if c.position == far {
            (prev.0, Some(c))
        } else {
            prev
        }
    }
}

/// Whether the adjacent and the far cell of a move by `delta` stay inside `i32`.
pub open spec fn can_move(player_pos: Position, delta: Position) -> bool {
    player_pos.can_offset(delta) && player_pos.spec_offset(delta).can_offset(delta)
}

/// The outcome of moving the player by `delta`: into a free adjacent cell, the player
/// moves; into a box whose far cell is free, the player and the box move; otherwise the
/// adjacent occupant blocks.
pub open spec fn move_outcome(
    player_ent: Entity,
    player_pos: Position,
    cells: Seq<Occupant>,
    delta: Position,
) -> Result<Seq<EntityUpdate>, Entity> {
    let adj = player_pos.spec_offset(delta);
    let far = adj.spec_offset(delta);
    let player_update = EntityUpdate { entity: player_ent, prev_pos: player_pos, new_pos: adj };
    let found = scan_cells(cells, adj, far);
    match found.0 {
        None => Ok(seq![player_update]),
        Some(adj_cell) => {
            if found.1.is_none() && adj_cell.is_box {
                Ok(
                    seq![
                        player_update,
                        EntityUpdate { entity: adj_cell.entity, prev_pos: adj, new_pos: far },
                    ],
                )
            } else {
                Err(adj_cell.entity)
            }
        },
    }
}

/// The step that an action moves the player by.
pub fn action_delta(action: PlayerAction) -> (d: Position)
    ensures
        d == spec_action_delta(action),
{
    match action {
        PlayerAction::MoveLeft => Position { x: -1, y: 0 },
        PlayerAction::MoveRight => Position { x: 1, y: 0 },
        PlayerAction::MoveUp => Position { x: 0, y: -1 },
        PlayerAction::MoveDown => Position { x: 0, y: 1 },
    }
}

/// Whether the adjacent and the far cell of `action` from `player_pos` stay inside `i32`.
pub fn can_move_checked(player_pos: Position, action: PlayerAction) -> (b: bool)
    ensures
        b == can_move(player_pos, spec_action_delta(action)),
{
    let delta = action_delta(action);
    let x = player_pos.x as i64;
    let y = player_pos.y as i64;
    let dx = delta.x as i64;
    let dy = delta.y as i64;
    let lo = i32::MIN as i64;
    let hi = i32::MAX as i64;
    lo <= x + dx && x + dx <= hi && lo <= y + dy && y + dy <= hi && lo <= x + 2 * dx && x + 2 * dx
        <= hi && lo <= y + 2 * dy && y + 2 * dy <= hi
}

/// Applies the move rules to an action of the player at `player_pos`; `cells` lists the
/// entities that can block, in the world's query order.
pub fn handle_player_action(
    player_ent: Entity,
    player_pos: Position,
    cells: &[Occupant],
    action: PlayerAction,
) -> (r: ActionResult)
    requires
        can_move(player_pos, spec_action_delta(action)),
    ensures
        r.outcome() == move_outcome(player_ent, player_pos, cells@, spec_action_delta(action)),
{
    match action {
        PlayerAction::MoveLeft => move_player(player_ent, player_pos, cells, Position { x: -1, y: 0 }),
        PlayerAction::MoveRight => move_player(player_ent, player_pos, cells, Position { x: 1, y: 0 }),
        PlayerAction::MoveUp => move_player(player_ent, player_pos, cells, Position { x: 0, y: -1 }),
        PlayerAction::MoveDown => move_player(player_ent, player_pos, cells, Position { x: 0, y: 1 }),
    }
}

/// Moves the player at `player_pos` by `delta`, pushing a box if one is in the way and the
/// cell beyond it is free.
pub fn move_player(player_ent: Entity, player_pos: Position, cells: &[Occupant], delta: Position) -> (r:
    ActionResult)
    requires
        can_move(player_pos, delta),
    ensures
        r.outcome() == move_outcome(player_ent, player_pos, cells@, delta),
{
    let adj_pos = player_pos.offset(delta);
    let far_pos = adj_pos.offset(delta);
    let mut maybe_adj_entity: Option<Occupant> = None;
    let mut maybe_far_entity: Option<Occupant> = None;
    let n = cells.len();
    let mut i: usize = 0;
    while i < n
        invariant
            n == cells@.len(),
            i <= n,
            (maybe_adj_entity, maybe_far_entity) == scan_cells(cells@.take(i as int), adj_pos, far_pos),
        decreases n - i,
    {
        assert(cells@.take(i + 1).drop_last() =~= cells@.take(i as int));
        let c = cells[i];
        if c.position == adj_pos {
            maybe_adj_entity = Some(c);
        } else if c.position == far_pos {
            maybe_far_entity = Some(c);
        }
        i = i + 1;
    }
    assert(cells@.take(n as int) =~= cells@);
    let player_update = EntityUpdate { entity: player_ent, prev_pos: player_pos, new_pos: adj_pos };
    match (maybe_adj_entity, maybe_far_entity) {
        (None, _) => {
            let mut updates = Vec::new();
            updates.push(player_update);
            assert(updates@ =~= seq![player_update]);
            ActionResult::Success(updates)
        },
        (Some(adj), None) => {
            if adj.is_box {
                let mut updates = Vec::new();
                updates.push(player_update);
                let box_update = EntityUpdate { entity: adj.entity, prev_pos: adj_pos, new_pos: far_pos };
                updates.push(box_update);
                assert(updates@ =~= seq![player_update, box_update]);
                ActionResult::Success(updates)
            } else {
                ActionResult::Failure { blocked_by: adj.entity }
            }
        },
        (Some(adj), Some(_)) => ActionResult::Failure { blocked_by: adj.entity },
    }
}

/// Whether the target at index `j` ends up marked covered: a box stands on its position,
/// and no earlier target has that position (each box marks only the first target it finds).
pub open spec fn target_covered(targets: Seq<Position>, boxes: Seq<Position>, j: int) -> bool {
    &&& boxes.contains(targets[j])
    &&& forall|k: int| 0 <= k < j ==> targets[k] != targets[j]
}

/// The number of boxes that stand on some target.
pub open spec fn covering_count(boxes: Seq<Position>, targets: Seq<Position>) -> nat
    decreases boxes.len(),
{
    if boxes.len() == 0 {
        0
    } else {
        covering_count(boxes.drop_last(), targets) + if targets.contains(boxes.last()) {
            1nat
        } else {
            0nat
        }
    }
}

/// What reconciling the level sets on the targets and the boxes.
pub struct Reconciliation {
    /// Per target, in the order given: whether it is covered.
    pub target_covered: Vec<bool>,
    /// Per box, in the order given: whether it stands on a target.
    pub box_covers: Vec<bool>,
}

pub proof fn lemma_covering_count_bound(boxes: Seq<Position>, targets: Seq<Position>)
    ensures
        covering_count(boxes, targets) <= boxes.len(),
    decreases boxes.len(),
{
    if boxes.len() > 0 {
        lemma_covering_count_bound(boxes.drop_last(), targets);
    }
}

/// Recomputes which targets are covered and which boxes cover a target, and records in
/// `level` whether the level is solved: whether as many boxes stand on targets as there
/// are targets. `targets` holds the positions of the targets that have one;
/// `target_count` counts every target, with a position or not.
pub fn reconcile_level_state(
    targets: &[Position],
    target_count: usize,
    boxes: &[Position],
    level: &mut LevelState,
) -> (r: Reconciliation)
    requires
        targets@.len() <= target_count,
    ensures
        r.target_covered@.len() == targets@.len(),
        forall|j: int|
            0 <= j < targets@.len() ==> #[trigger] r.target_covered@[j] == target_covered(
                targets@,
                boxes@,
                j,
            ),
        r.box_covers@.len() == boxes@.len(),
        forall|i: int|
            0 <= i < boxes@.len() ==> #[trigger] r.box_covers@[i] == targets@.contains(boxes@[i]),
        final(level).player == old(level).player,
        final(level).solved == (covering_count(boxes@, targets@) == target_count),
{
    let m = targets.len();
    let n = boxes.len();
    let total_targets = target_count;
    let mut covered: Vec<bool> = Vec::new();
    let mut j: usize = 0;
    while j < m
        invariant
            j <= m,
            covered@ == Seq::new(j as nat, |k: int| false),
        decreases m - j,
    {
        covered.push(false);
        j = j + 1;
    }
    let mut box_covers: Vec<bool> = Vec::new();
    let mut covered_targets: usize = 0;
    let mut i: usize = 0;
    while i < n
        invariant
            m == targets@.len(),
            n == boxes@.len(),
            i <= n,
            covered@.len() == m,
            forall|k: int|
                0 <= k < m ==> #[trigger] covered@[k] == target_covered(
                    targets@,
                    boxes@.take(i as int),
                    k,
                ),
            box_covers@.len() == i,
            forall|k: int| 0 <= k < i ==> #[trigger] box_covers@[k] == targets@.contains(boxes@[k]),
            covered_targets == covering_count(boxes@.take(i as int), targets@),
        decreases n - i,
    {
        let b = boxes[i];
        let mut t: usize = 0;
        while t < m && targets[t] != b
            invariant
                m == targets@.len(),
                t <= m,
                forall|k: int| 0 <= k < t ==> targets@[k] != b,
            decreases m - t,
        {
            t = t + 1;
        }
        let ghost prev = boxes@.take(i as int);
        let ghost next = boxes@.take(i + 1);
        assert(next.drop_last() =~= prev);
        assert(next.last() == b);
        proof {
            lemma_covering_count_bound(prev, targets@);
        }
        assert forall|p: Position| next.contains(p) <==> (prev.contains(p) || p == b) by {
            if next.contains(p) {
                let k = choose|k: int| 0 <= k < next.len() && next[k] == p;
                if k < i {
                    assert(prev[k] == p);
                }
            }
            if prev.contains(p) {
                let k = choose|k: int| 0 <= k < prev.len() && prev[k] == p;
                assert(next[k] == p);
            }
            if p == b {
                assert(next[i as int] == p);
            }
        }
        if t < m {
            assert(targets@[t as int] == b);
            assert(targets@.contains(b));
            covered.set(t, true);
            covered_targets = covered_targets + 1;
            box_covers.push(true);
        } else {
            assert(!targets@.contains(b));
            box_covers.push(false);
        }
        i = i + 1;
    }
    assert(boxes@.take(n as int) =~= boxes@);
    level.solved = covered_targets == total_targets;
    Reconciliation { target_covered: covered, box_covers }
}

pub proof fn lemma_scan_cells(cells: Seq<Occupant>, adj: Position, far: Position)
    requires
        adj != far,
    ensures
        scan_cells(cells, adj, far).0 matches Some(c) ==> cells.contains(c) && c.position == adj,
        scan_cells(cells, adj, far).1 matches Some(c) ==> cells.contains(c) && c.position == far,
        scan_cells(cells, adj, far).0 is None ==> forall|k: int|
            0 <= k < cells.len() ==> #[trigger] cells[k].position != adj,
        scan_cells(cells, adj, far).1 is None ==> forall|k: int|
            0 <= k < cells.len() ==> #[trigger] cells[k].position != far,
    decreases cells.len(),
{
    if cells.len() > 0 {
        let p = cells.drop_last();
        lemma_scan_cells(p, adj, far);
        assert forall|k: int| 0 <= k < p.len() implies p[k] == cells[k] by {}
        if let Some(c) = scan_cells(p, adj, far).0 {
            let k = choose|k: int| 0 <= k < p.len() && p[k] == c;
            assert(cells[k] == c);
        }
        if let Some(c) = scan_cells(p, adj, far).1 {
            let k = choose|k: int| 0 <= k < p.len() && p[k] == c;
            assert(cells[k] == c);
        }
        assert(cells[cells.len() - 1] == cells.last());
    }
}

/// Every move of a successful action shifts its entity by exactly the action's step, the
/// player's move comes first, a lone player move goes into a cell where nothing stands, and
/// a pushed box is one that stood in the adjacent cell,
/// moved into a far cell where nothing stood.
pub proof fn law_moves_shift_by_delta(
    player_ent: Entity,
    player_pos: Position,
    cells: Seq<Occupant>,
    action: PlayerAction,
)
    requires
        can_move(player_pos, spec_action_delta(action)),
    ensures
        ({
            let delta = spec_action_delta(action);
            match move_outcome(player_ent, player_pos, cells, delta) {
                Ok(updates) => {
                    &&& 1 <= updates.len() <= 2
                    &&& updates[0] == (EntityUpdate {
                        entity: player_ent,
                        prev_pos: player_pos,
                        new_pos: player_pos.spec_offset(delta),
                    })
                    &&& forall|i: int|
                        0 <= i < updates.len() ==> #[trigger] updates[i].new_pos.x == updates[i].prev_pos.x
                            + delta.x && updates[i].new_pos.y == updates[i].prev_pos.y + delta.y
                    &&& updates.len() == 1 ==> forall|k: int|
                        0 <= k < cells.len() ==> #[trigger] cells[k].position
                            != player_pos.spec_offset(delta)
                    &&& updates.len() == 2 ==> {
                        &&& exists|k: int|
                            0 <= k < cells.len() && #[trigger] cells[k].entity == updates[1].entity
                                && cells[k].is_box && cells[k].position == updates[1].prev_pos
                        &&& forall|k: int|
                            0 <= k < cells.len() ==> #[trigger] cells[k].position
                                != updates[1].new_pos
                    }
                },
                Err(blocker) => exists|k: int|
                    0 <= k < cells.len() && #[trigger] cells[k].entity == blocker && cells[k].position
                        == player_pos.spec_offset(delta),
            }
        }),
{
    let delta = spec_action_delta(action);
    let adj = player_pos.spec_offset(delta);
    let far = adj.spec_offset(delta);
    assert(adj != far);
    lemma_scan_cells(cells, adj, far);
    let found = scan_cells(cells, adj, far);
    if let Some(c) = found.0 {
        let k = choose|k: int| 0 <= k < cells.len() && cells[k] == c;
        assert(cells[k].entity == c.entity);
    }
}

/// Blocked: when everything in the adjacent cell is not a box, or the adjacent and the far
/// cell are both occupied, the action fails.
pub proof fn law_blocked_moves_fail(
    player_ent: Entity,
    player_pos: Position,
    cells: Seq<Occupant>,
    delta: Position,
    k: int,
)
    requires
        can_move(player_pos, delta),
        delta != (Position { x: 0, y: 0 }),
        0 <= k < cells.len(),
        cells[k].position == player_pos.spec_offset(delta),
        (forall|j: int|
            0 <= j < cells.len() && #[trigger] cells[j].position == player_pos.spec_offset(delta)
                ==> !cells[j].is_box) || exists|j: int|
            0 <= j < cells.len() && #[trigger] cells[j].position == player_pos.spec_offset(
                delta,
            ).spec_offset(delta),
    ensures
        move_outcome(player_ent, player_pos, cells, delta) is Err,
{
    let adj = player_pos.spec_offset(delta);
    let far = adj.spec_offset(delta);
    lemma_scan_cells(cells, adj, far);
    let found = scan_cells(cells, adj, far);
    assert(found.0 is Some);
    let c = found.0.unwrap();
    let i = choose|i: int| 0 <= i < cells.len() && cells[i] == c;
    assert(cells[i].position == adj);
}

/// With no two boxes on one cell, the covering count is the number of cells that hold
/// both a box and a target.
pub proof fn lemma_covering_count_is_overlap(boxes: Seq<Position>, targets: Seq<Position>)
    requires
        boxes.no_duplicates(),
    ensures
        covering_count(boxes, targets) == boxes.to_set().intersect(targets.to_set()).len(),
        boxes.to_set().intersect(targets.to_set()).finite(),
    decreases boxes.len(),
{
    broadcast use vstd::set::group_set_axioms;
    broadcast use vstd::seq_lib::seq_to_set_is_finite;

    if boxes.len() == 0 {
        assert(boxes.to_set().intersect(targets.to_set()) =~= Set::empty());
    } else {
        let p = boxes.drop_last();
        let b = boxes.last();
        assert(p.no_duplicates()) by {
            assert forall|i: int, j: int| 0 <= i < p.len() && 0 <= j < p.len() && i != j implies p[i]
                != p[j] by {
                assert(p[i] == boxes[i] && p[j] == boxes[j]);
            }
        }
        lemma_covering_count_is_overlap(p, targets);
        assert(boxes.to_set() =~= p.to_set().insert(b)) by {
            assert forall|x: Position| boxes.to_set().contains(x) <==> p.to_set().insert(b).contains(x) by {
                if boxes.contains(x) {
                    let k = choose|k: int| 0 <= k < boxes.len() && boxes[k] == x;
                    if k < p.len() {
                        assert(p[k] == x);
                    }
                }
                if p.contains(x) {
                    let k = choose|k: int| 0 <= k < p.len() && p[k] == x;
                    assert(boxes[k] == x);
                }
                if x == b {
                    assert(boxes[boxes.len() - 1] == x);
                }
            }
        }
        assert(!p.contains(b)) by {
            if p.contains(b) {
                let k = choose|k: int| 0 <= k < p.len() && p[k] == b;
                assert(boxes[k] == boxes[boxes.len() - 1]);
            }
        }
        let before = p.to_set().intersect(targets.to_set());
        let after = boxes.to_set().intersect(targets.to_set());
        if targets.contains(b) {
            assert(after =~= before.insert(b));
            assert(!before.contains(b));
        } else {
            assert(after =~= before);
        }
    }
}

/// With distinct target cells and distinct box cells, the level counts as solved exactly
/// when every target has a box on it.
pub proof fn law_solved_iff_every_target_covered(targets: Seq<Position>, boxes: Seq<Position>)
    requires
        targets.no_duplicates(),
        boxes.no_duplicates(),
    ensures
        (covering_count(boxes, targets) == targets.len()) <==> (forall|j: int|
            0 <= j < targets.len() ==> #[trigger] boxes.contains(targets[j])),
{
    broadcast use vstd::set::group_set_axioms;
    broadcast use vstd::seq_lib::seq_to_set_is_finite;

    lemma_covering_count_is_overlap(boxes, targets);
    targets.unique_seq_to_set();
    let t = targets.to_set();
    let overlap = boxes.to_set().intersect(t);
    if forall|j: int| 0 <= j < targets.len() ==> #[trigger] boxes.contains(targets[j]) {
        assert(overlap =~= t) by {
            assert forall|x: Position| t.contains(x) implies overlap.contains(x) by {
                let j = choose|j: int| 0 <= j < targets.len() && targets[j] == x;
                assert(boxes.contains(targets[j]));
            }
        }
    }
    if covering_count(boxes, targets) == targets.len() {
        vstd::set_lib::lemma_subset_equality(overlap, t);
        assert forall|j: int| 0 <= j < targets.len() implies #[trigger] boxes.contains(targets[j]) by {
            assert(t.contains(targets[j]));
            assert(overlap.contains(targets[j]));
        }
    }
}

/// A lone box in the adjacent cell, with nothing in the far cell, is pushed, whichever way
/// the player moves: the player steps into the adjacent cell and the box into the far one.
pub proof fn law_lone_box_is_pushed(
    player_ent: Entity,
    player_pos: Position,
    cells: Seq<Occupant>,
    action: PlayerAction,
    k: int,
)
    requires
        can_move(player_pos, spec_action_delta(action)),
        0 <= k < cells.len(),
        cells[k].position == player_pos.spec_offset(spec_action_delta(action)),
        cells[k].is_box,
        forall|j: int|
            0 <= j < cells.len() && #[trigger] cells[j].position == player_pos.spec_offset(
                spec_action_delta(action),
            ) ==> j == k,
        forall|j: int|
            0 <= j < cells.len() ==> #[trigger] cells[j].position != player_pos.spec_offset(
                spec_action_delta(action),
            ).spec_offset(spec_action_delta(action)),
    ensures
        ({
            let adj = player_pos.spec_offset(spec_action_delta(action));
            let far = adj.spec_offset(spec_action_delta(action));
            move_outcome(player_ent, player_pos, cells, spec_action_delta(action)) == Ok::<
                Seq<EntityUpdate>,
                Entity,
            >(
                seq![
                    EntityUpdate { entity: player_ent, prev_pos: player_pos, new_pos: adj },
                    EntityUpdate { entity: cells[k].entity, prev_pos: adj, new_pos: far },
                ],
            )
        }),
{
    let delta = spec_action_delta(action);
    let adj = player_pos.spec_offset(delta);
    let far = adj.spec_offset(delta);
    lemma_scan_cells(cells, adj, far);
    let found = scan_cells(cells, adj, far);
    assert(cells[k].position == adj);
    assert(found.0 is Some);
    let c = found.0.unwrap();
    let j = choose|j: int| 0 <= j < cells.len() && cells[j] == c;
    assert(cells[j].position == adj);
    assert(j == k);
    if found.1 is Some {
        let c2 = found.1.unwrap();
        let j2 = choose|j2: int| 0 <= j2 < cells.len() && cells[j2] == c2;
        assert(cells[j2].position == far);
    }
}

/// Walking into a cell where nothing stands always succeeds, with the player's step as the
/// only update.
pub proof fn law_free_cell_is_entered(
    player_ent: Entity,
    player_pos: Position,
    cells: Seq<Occupant>,
    action: PlayerAction,
)
    requires
        can_move(player_pos, spec_action_delta(action)),
        forall|j: int|
            0 <= j < cells.len() ==> #[trigger] cells[j].position != player_pos.spec_offset(
                spec_action_delta(action),
            ),
    ensures
        move_outcome(player_ent, player_pos, cells, spec_action_delta(action)) == Ok::<
            Seq<EntityUpdate>,
            Entity,
        >(
            seq![
                EntityUpdate {
                    entity: player_ent,
                    prev_pos: player_pos,
                    new_pos: player_pos.spec_offset(spec_action_delta(action)),
                },
            ],
        ),
{
    let delta = spec_action_delta(action);
    let adj = player_pos.spec_offset(delta);
    let far = adj.spec_offset(delta);
    lemma_scan_cells(cells, adj, far);
    let found = scan_cells(cells, adj, far);
    if found.0 is Some {
        let c = found.0.unwrap();
        let j = choose|j: int| 0 <= j < cells.len() && cells[j] == c;
        assert(cells[j].position == adj);
    }
}

/// A target is marked covered only when a box stands on it, and every box standing on a
/// target marks the first target of its cell covered, wherever the box comes in the list.
/// With distinct target cells, a target is covered exactly when some box stands on it.
pub proof fn law_covered_iff_box_on_target(targets: Seq<Position>, boxes: Seq<Position>)
    ensures
        forall|j: int|
            0 <= j < targets.len() && #[trigger] target_covered(targets, boxes, j) ==> exists|i: int|
                0 <= i < boxes.len() && boxes[i] == targets[j],
        forall|i: int|
            0 <= i < boxes.len() && #[trigger] targets.contains(boxes[i]) ==> exists|j: int|
                0 <= j < targets.len() && targets[j] == boxes[i] && target_covered(targets, boxes, j),
        targets.no_duplicates() ==> forall|j: int|
            0 <= j < targets.len() ==> (#[trigger] target_covered(targets, boxes, j) <==> exists|i: int|
                0 <= i < boxes.len() && boxes[i] == targets[j]),
{
    assert forall|i: int| 0 <= i < boxes.len() && #[trigger] targets.contains(boxes[i]) implies exists|j: int|
        0 <= j < targets.len() && targets[j] == boxes[i] && target_covered(targets, boxes, j) by {
        let p = boxes[i];
        lemma_first_target(targets, p);
        assert(boxes.contains(p));
    }
    assert forall|j: int| 0 <= j < targets.len() && #[trigger] target_covered(targets, boxes, j) implies exists|i: int|
        0 <= i < boxes.len() && boxes[i] == targets[j] by {
        let i = choose|i: int| 0 <= i < boxes.len() && boxes[i] == targets[j];
    }
    if targets.no_duplicates() {
        assert forall|j: int| 0 <= j < targets.len() implies (#[trigger] target_covered(targets, boxes, j)
            <==> exists|i: int| 0 <= i < boxes.len() && boxes[i] == targets[j]) by {
            if exists|i: int| 0 <= i < boxes.len() && boxes[i] == targets[j] {
                let i = choose|i: int| 0 <= i < boxes.len() && boxes[i] == targets[j];
                assert(boxes.contains(targets[j]));
            }
        }
    }
}

/// A position held by some target has a first target holding it.
pub proof fn lemma_first_target(targets: Seq<Position>, p: Position)
    requires
        targets.contains(p),
    ensures
        exists|j: int|
            0 <= j < targets.len() && targets[j] == p && forall|q: int| 0 <= q < j ==> targets[q] != p,
    decreases targets.len(),
{
    let last = targets.len() - 1;
    let init = targets.drop_last();
    if init.contains(p) {
        lemma_first_target(init, p);
        let j = choose|j: int| 0 <= j < init.len() && init[j] == p && forall|q: int| 0 <= q < j ==> init[q] != p;
        assert(targets[j] == p);
        assert forall|q: int| 0 <= q < j implies targets[q] != p by {
            assert(init[q] == targets[q]);
        }
    } else {
        let k = choose|k: int| 0 <= k < targets.len() && targets[k] == p;
        if k < last {
            assert(init[k] == p);
        }
        assert forall|q: int| 0 <= q < last implies targets[q] != p by {
            if targets[q] == p {
                assert(init[q] == p);
            }
        }
        assert(targets[last] == p);
    }
}

} // verus!
