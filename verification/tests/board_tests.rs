use wesnoth_zk::board::checked_cell_index;
use wesnoth_zk::board::square_values;
use wesnoth_zk::board::CircuitState;
use wesnoth_zk::transaction::Transaction;
use wesnoth_zk::unit::Square;
use wesnoth_zk::unit::Unit;

fn empty() -> Square {
    Unit::Empty.default_square()
}

fn board(squares: Vec<Square>) -> CircuitState {
    CircuitState { squares, gold_amount: 100, captured_village_count: 2, current_upkeep_costs: 3 }
}

fn three_by_two() -> CircuitState {
    let mut squares = vec![empty(); 6];
    squares[0] = Unit::OrcCommander.default_square();
    squares[4] =
        Square { unit: Unit::OrcSoldier, health_points: 7, captured: true, move_credits: 1 };
    board(squares)
}

#[test]
fn hash_input_flattens_squares_then_resources() {
    let state = three_by_two();
    assert_eq!(
        state.hash_input(),
        vec![
            1, 58, 0, 5, 0, 0, 0, 0, 0, 0, 0, 0, 0, 0, 0, 0, 2, 7, 1, 1, 0, 0, 0, 0, 100, 2, 3
        ]
    );
}

#[test]
fn hash_input_of_no_square_is_the_resources() {
    assert_eq!(board(vec![]).hash_input(), vec![100, 2, 3]);
}

#[test]
fn hash_input_is_the_same_twice() {
    let state = three_by_two();
    let first = state.hash_input();
    let second = state.hash_input();
    assert_eq!(first, second);
    assert_eq!(state.clone().hash_input(), first);
}

#[test]
fn hash_input_changes_with_every_field() {
    let base = three_by_two();
    let reference = base.hash_input();
    let mut changed = Vec::new();
    for i in 0..base.squares.len() {
        let mut s = base.clone();
        s.squares[i].unit = if s.squares[i].unit == Unit::OrcSoldier {
            Unit::OrcCommander
        } else {
            Unit::OrcSoldier
        };
        changed.push(s);
        let mut s = base.clone();
        s.squares[i].health_points += 1;
        changed.push(s);
        let mut s = base.clone();
        s.squares[i].captured = !s.squares[i].captured;
        changed.push(s);
        let mut s = base.clone();
        s.squares[i].move_credits += 1;
        changed.push(s);
    }
    let mut s = base.clone();
    s.gold_amount += 1;
    changed.push(s);
    let mut s = base.clone();
    s.captured_village_count += 1;
    changed.push(s);
    let mut s = base.clone();
    s.current_upkeep_costs += 1;
    changed.push(s);
    let mut s = base.clone();
    s.squares.push(empty());
    changed.push(s);
    let mut inputs = vec![reference];
    for s in &changed {
        let input = s.hash_input();
        assert!(!inputs.contains(&input));
        inputs.push(input);
    }
}

#[test]
fn square_values_are_code_health_flag_credits() {
    assert_eq!(square_values(&Unit::OrcCommander.default_square()), [1, 58, 0, 5]);
    assert_eq!(
        square_values(&Square {
            unit: Unit::OrcSoldier,
            health_points: 9,
            captured: true,
            move_credits: 0
        }),
        [2, 9, 1, 0]
    );
    assert_eq!(square_values(&empty()), [0, 0, 0, 0]);
}

#[test]
fn rows_and_resources() {
    let state = three_by_two();
    let rows = state.square_rows();
    assert_eq!(rows.len(), 6);
    assert_eq!(rows[0], [1, 58, 0, 5]);
    assert_eq!(rows[1], [0, 0, 0, 0]);
    assert_eq!(rows[4], [2, 7, 1, 1]);
    assert_eq!(state.misc_values(), [100, 2, 3]);
}

#[test]
fn cell_index_is_row_times_width_plus_column() {
    assert_eq!(checked_cell_index(10, (3, 4), 100), Some(43));
    assert_eq!(checked_cell_index(10, (9, 9), 100), Some(99));
    assert_eq!(checked_cell_index(10, (0, 10), 100), None);
    assert_eq!(checked_cell_index(10, (15, 0), 100), Some(15));
    assert_eq!(checked_cell_index(u64::MAX, (0, 2), 100), None);
    assert_eq!(checked_cell_index(1, (u64::MAX, 1), 100), None);
    assert_eq!(checked_cell_index(3, (0, 0), 0), None);
}

#[test]
fn a_move_carries_the_square_and_empties_the_origin() {
    let mut state = three_by_two();
    let commander = state.squares[0];
    state.apply_turn(3, &[Transaction::MoveUnit((0, 0), (2, 1))]);
    assert_eq!(state.squares[5], commander);
    assert_eq!(state.squares[0], empty());
    assert_eq!(state.squares.len(), 6);
    assert_eq!(state.gold_amount, 100);
    assert_eq!(state.captured_village_count, 2);
    assert_eq!(state.current_upkeep_costs, 3);
}

#[test]
fn a_move_overwrites_its_destination() {
    let mut state = three_by_two();
    let commander = state.squares[0];
    state.apply_turn(3, &[Transaction::MoveUnit((0, 0), (1, 1))]);
    assert_eq!(state.squares[4], commander);
    assert_eq!(state.squares[0], empty());
}

#[test]
fn a_move_onto_itself_empties_the_cell() {
    let mut state = three_by_two();
    state.apply_turn(3, &[Transaction::MoveUnit((0, 0), (0, 0))]);
    assert_eq!(state.squares[0], empty());
}

#[test]
fn moves_are_carried_out_in_order() {
    let mut state = three_by_two();
    let commander = state.squares[0];
    let soldier = state.squares[4];
    state.apply_turn(
        3,
        &[
            Transaction::MoveUnit((0, 0), (1, 0)),
            Transaction::MoveUnit((1, 1), (0, 0)),
            Transaction::MoveUnit((1, 0), (2, 0)),
        ],
    );
    assert_eq!(state.squares[0], soldier);
    assert_eq!(state.squares[1], empty());
    assert_eq!(state.squares[2], commander);
    assert_eq!(state.squares[4], empty());
}

#[test]
fn other_actions_leave_the_board() {
    let mut state = three_by_two();
    let before = state.clone();
    state.apply_turn(
        3,
        &[
            Transaction::Pass,
            Transaction::CaptureVillage(1),
            Transaction::PurchaseUnit(0, Unit::OrcSoldier),
        ],
    );
    assert_eq!(state, before);
    state.apply_turn(3, &[]);
    assert_eq!(state, before);
}

#[test]
fn turns_off_the_board_are_not_accepted() {
    let state = three_by_two();
    assert!(state.accepts_turn(3, &[]));
    assert!(state.accepts_turn(3, &[Transaction::MoveUnit((0, 0), (2, 1))]));
    assert!(!state.accepts_turn(3, &[Transaction::MoveUnit((0, 0), (0, 2))]));
    assert!(!state.accepts_turn(3, &[Transaction::MoveUnit((100, 0), (2, 1))]));
    assert!(!state.accepts_turn(
        3,
        &[Transaction::Pass, Transaction::MoveUnit((0, 0), (u64::MAX, u64::MAX))]
    ));
    assert!(state.accepts_turn(3, &[Transaction::CaptureVillage(1000)]));
}
