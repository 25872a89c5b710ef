use num_bigint::BigUint;
use wesnoth_zk::accumulator::parameters_plan;
use wesnoth_zk::accumulator::FoldLog;
use wesnoth_zk::accumulator::ParametersPlan;
use wesnoth_zk::error::ProtocolError;
use wesnoth_zk::reply::phase1_outputs;
use wesnoth_zk::reply::phase2_outputs;
use wesnoth_zk::scalar::Scalar;
use wesnoth_zk::state::InitialState;
use wesnoth_zk::state::State;
use wesnoth_zk::state::UnencryptedData;
use wesnoth_zk::state::STARTING_GOLD;
use wesnoth_zk::transaction::Transaction;
use wesnoth_zk::unit::Commander;
use wesnoth_zk::unit::Unit;

fn nordic() -> InitialState {
    InitialState::Nordic((10, 10), Commander::Orc, Commander::Orc)
}

#[test]
fn the_map_has_its_size_and_villages() {
    let map = nordic();
    assert_eq!(map.size(), (10, 10));
    assert_eq!(map.village_count(), 8);
    assert_eq!(map.circuit_path(), "wesnoth-zkpsi/");
    assert_eq!(map.cell_count(), Some(100));
}

#[test]
fn a_map_without_cells_has_no_cell_count() {
    assert_eq!(InitialState::Nordic((0, 10), Commander::Orc, Commander::Orc).cell_count(), None);
    assert_eq!(InitialState::Nordic((10, 0), Commander::Orc, Commander::Orc).cell_count(), None);
    assert_eq!(
        InitialState::Nordic((u64::MAX, 2), Commander::Orc, Commander::Orc).cell_count(),
        None
    );
    assert_eq!(InitialState::Nordic((1, 1), Commander::Orc, Commander::Orc).cell_count(), Some(1));
}

#[test]
fn nothing_is_known_before_the_first_turn() {
    let data = UnencryptedData::init(nordic());
    assert!(data.last_hash.is_zero());
    assert_eq!(data.own_received_damage, vec![0; 100]);
    assert_eq!(data.adversary_captures, vec![0; 8]);
    assert_eq!(data.allied_captures, vec![0; 8]);
}

#[test]
fn players_start_in_opposite_corners() {
    let (a, b) = State::initial_states(nordic());
    assert_eq!(a.circuit_state.squares.len(), 100);
    assert_eq!(b.circuit_state.squares.len(), 100);
    let commander = Unit::OrcCommander.default_square();
    let empty = Unit::Empty.default_square();
    for i in 0..100 {
        assert_eq!(a.circuit_state.squares[i], if i == 0 { commander } else { empty });
        assert_eq!(b.circuit_state.squares[i], if i == 99 { commander } else { empty });
    }
    for s in [&a, &b] {
        assert_eq!(s.circuit_state.gold_amount, STARTING_GOLD);
        assert_eq!(s.circuit_state.gold_amount, 100);
        assert_eq!(s.circuit_state.captured_village_count, 0);
        assert_eq!(s.circuit_state.current_upkeep_costs, 0);
        assert!(s.pending_transactions.is_empty());
        assert!(s.roll_hash.is_zero());
        assert_eq!(s.fold_log.step_count(), 0);
        assert_eq!(s.initial_state, nordic());
        assert_eq!(s.unencrypted_state.own_received_damage.len(), 100);
    }
}

#[test]
fn a_map_of_one_cell_holds_each_commander() {
    let map = InitialState::Nordic((1, 1), Commander::Orc, Commander::Orc);
    let (a, b) = State::initial_states(map);
    assert_eq!(a.circuit_state.squares, vec![Unit::OrcCommander.default_square()]);
    assert_eq!(b.circuit_state.squares, vec![Unit::OrcCommander.default_square()]);
}

#[test]
fn appended_transactions_queue_up() {
    let (mut a, _) = State::initial_states(nordic());
    a.append_transaction(Transaction::MoveUnit((0, 0), (2, 2)));
    a.append_transaction(Transaction::CaptureVillage(1));
    assert_eq!(
        a.pending_transactions,
        vec![Transaction::MoveUnit((0, 0), (2, 2)), Transaction::CaptureVillage(1)]
    );
}

#[test]
fn the_hash_request_is_the_flattened_board() {
    let (a, b) = State::initial_states(nordic());
    let ha = a.hash().to_hash;
    let hb = b.hash().to_hash;
    assert_eq!(ha.len(), 403);
    assert_eq!(&ha[..5], &[1, 58, 0, 5, 0]);
    assert_eq!(&ha[400..], &[100, 0, 0]);
    assert_eq!(&hb[396..], &[1, 58, 0, 5, 100, 0, 0]);
    assert_ne!(ha, hb);
    assert_eq!(a.hash().to_hash, ha);
}

#[test]
fn the_rolling_commitment_is_zero() {
    let (a, _) = State::initial_states(nordic());
    assert!(a.roll_hash().is_zero());
    assert_eq!(a.roll_hash().to_decimal(), "0");
}

#[test]
fn phase1_draws_an_exponent_for_each_cell() {
    let (_, b) = State::initial_states(nordic());
    let (exponents, request) = b.phase1();
    assert_eq!(exponents.len(), 100);
    assert_eq!(request.prev_state.len(), 100);
    assert_eq!(request.prev_state[99], [1, 58, 0, 5]);
    assert_eq!(request.prev_misc_state, [100, 0, 0]);
    assert_eq!(request.degats, vec![0; 100]);
    assert_eq!(request.captures, vec![0; 8]);
    assert_eq!(request.phase1_exponents.len(), 100);
    for (e, bits) in exponents.iter().zip(request.phase1_exponents.iter()) {
        assert_eq!(bits.len(), 254);
        assert_eq!(bits[0], 1);
        let value = BigUint::from_bytes_le(&e.to_le_bytes());
        for (i, b) in bits.iter().enumerate() {
            assert_eq!(*b == 1, value.bit(i as u64));
        }
    }
}

#[test]
fn phase2_carries_out_the_queued_turn() {
    let (mut a, _) = State::initial_states(nordic());
    a.append_transaction(Transaction::MoveUnit((0, 0), (2, 2)));
    a.append_transaction(Transaction::CaptureVillage(5));
    assert!(a.begin_phase2().is_ok());
    assert_eq!(a.circuit_state.squares[22], Unit::OrcCommander.default_square());
    assert_eq!(a.circuit_state.squares[0], Unit::Empty.default_square());
    let received = vec![(Scalar::from_u64(1), Scalar::from_u64(2))];
    let request = a.phase2(&Scalar::from_u64(4242), &received).unwrap();
    assert_eq!(request.step_in, ("4242".to_string(), "0".to_string()));
    assert_eq!(request.prev_state.len(), 100);
    assert_eq!(request.prev_state[22], [1, 58, 0, 5]);
    assert_eq!(request.prev_state[0], [0, 0, 0, 0]);
    assert_eq!(request.actions.len(), 10);
    assert_eq!(request.actions[0], [1, 0, 0, 2, 2, -1, -1, -1]);
    assert_eq!(request.actions[1], [2, -1, -1, -1, -1, 5, -1, -1]);
    assert_eq!(request.actions[2], [0, -1, -1, -1, -1, -1, -1, -1]);
    assert_eq!(request.degats, vec![0; 100]);
    assert_eq!(request.captures, vec![0, 0, 0, 0, 0, 1, 0, 0]);
    assert_eq!(request.actions_captures, vec![0; 8]);
    assert_eq!(request.phase1_exponents.len(), 100);
    assert!(request.phase1_exponents.iter().all(|bits| bits.len() == 254 && bits[0] == 1));
    assert_eq!(request.phase2_exponent.len(), 254);
    assert_eq!(request.phase1_received, vec![("1".to_string(), "2".to_string())]);
}

#[test]
fn an_eleventh_transaction_stops_phase2_before_anything_happens() {
    let (mut a, _) = State::initial_states(nordic());
    a.append_transaction(Transaction::MoveUnit((0, 0), (1, 0)));
    for _ in 0..10 {
        a.append_transaction(Transaction::Pass);
    }
    let before = a.circuit_state.clone();
    match a.begin_phase2() {
        Err(ProtocolError::TooManyActions { count }) => assert_eq!(count, 11),
        other => panic!("expected a refusal, got {:?}", other),
    }
    assert_eq!(a.circuit_state, before);
    match a.phase2(&Scalar::from_u64(1), &[]) {
        Err(ProtocolError::TooManyActions { count }) => assert_eq!(count, 11),
        other => panic!("expected a refusal, got {:?}", other),
    }
    assert_eq!(a.fold_log.step_count(), 0);
}

#[test]
fn an_overlong_turn_is_refused_whatever_it_holds() {
    let (mut a, _) = State::initial_states(nordic());
    a.append_transaction(Transaction::MoveUnit((500, 500), (0, 0)));
    a.append_transaction(Transaction::CaptureVillage(99));
    for _ in 0..9 {
        a.append_transaction(Transaction::CaptureVillage(u64::MAX));
    }
    assert_eq!(a.pending_transactions.len(), 11);
    let before = a.circuit_state.clone();
    match a.begin_phase2() {
        Err(ProtocolError::TooManyActions { count }) => assert_eq!(count, 11),
        other => panic!("expected a refusal, got {:?}", other),
    }
    assert_eq!(a.circuit_state, before);
    match a.phase2(&Scalar::from_u64(1), &[]) {
        Err(ProtocolError::TooManyActions { count }) => assert_eq!(count, 11),
        other => panic!("expected a refusal, got {:?}", other),
    }
    assert_eq!(a.fold_log.step_count(), 0);
}

#[test]
fn the_exponents_of_phase1_pass_phase3() {
    let (_, b) = State::initial_states(nordic());
    let (exponents, _) = b.phase1();
    let order = BigUint::from_bytes_le(&wesnoth_zk::exponent::order().to_le_bytes());
    let request = b.phase3(&exponents, &[], &[], &[], &[]).unwrap();
    assert_eq!(request.inv_phase1_exponents.len(), 100);
    for (e, bits) in exponents.iter().zip(request.inv_phase1_exponents.iter()) {
        let mut inverse = BigUint::from(0u32);
        for (i, b) in bits.iter().enumerate() {
            if *b == 1 {
                inverse.set_bit(i as u64, true);
            }
        }
        let value = BigUint::from_bytes_le(&e.to_le_bytes());
        assert_eq!((inverse * value) % &order, BigUint::from(1u32));
    }
}

#[test]
fn a_folded_step_counts_once() {
    let (mut a, b) = State::initial_states(nordic());
    assert!(a.finish_phase2(true).is_ok());
    assert_eq!(a.fold_log.step_count(), 1);
    assert!(a.finish_phase2(true).is_ok());
    assert_eq!(a.fold_log.step_count(), 2);
    assert_eq!(b.fold_log.step_count(), 0);
}

#[test]
fn a_refused_step_is_a_failure_and_does_not_count() {
    let (mut a, _) = State::initial_states(nordic());
    assert!(a.finish_phase2(true).is_ok());
    assert!(matches!(a.finish_phase2(false), Err(ProtocolError::FoldFailed)));
    assert_eq!(a.fold_log.step_count(), 1);
}

#[test]
fn the_fold_log_starts_empty() {
    let mut log = FoldLog::new();
    assert_eq!(log.step_count(), 0);
    assert!(matches!(log.record(false), Err(ProtocolError::FoldFailed)));
    assert_eq!(log.step_count(), 0);
    assert!(log.record(true).is_ok());
    assert_eq!(log.step_count(), 1);
}

#[test]
fn parameters_are_loaded_where_cached() {
    assert_eq!(parameters_plan(true), ParametersPlan::Load);
    assert_eq!(parameters_plan(false), ParametersPlan::GenerateAndStore);
}

#[test]
fn one_turn_without_transactions() {
    let (mut a, b) = State::initial_states(nordic());
    let (exponents, first) = b.phase1();
    assert_eq!(first.phase1_exponents.len(), 100);
    let mut reply = String::new();
    for i in 0..200 {
        reply.push_str(&format!("{} {}\n", 2 * i + 1, 2 * i + 2));
    }
    let (idents, blinded) = phase1_outputs(reply.as_bytes(), 100).unwrap();
    assert!(a.begin_phase2().is_ok());
    let second = a.phase2(&Scalar::from_u64(99), &blinded).unwrap();
    assert_eq!(second.phase1_received.len(), 100);
    assert_eq!(second.phase1_received[0], ("201".to_string(), "202".to_string()));
    assert!(second.actions.iter().all(|x| *x == [0, -1, -1, -1, -1, -1, -1, -1]));
    let mut reply = String::new();
    for i in 0..200 {
        reply.push_str(&format!("{} {}\n", i, i));
    }
    for i in 0..100 {
        reply.push_str(&format!("{} {} {}\n", i, i + 1, i + 2));
    }
    let (dh, tags, data) = phase2_outputs(reply.as_bytes(), 100).unwrap();
    assert_eq!((dh.len(), tags.len(), data.len()), (100, 100, 100));
    let steps = a.fold_log.step_count();
    assert!(a.finish_phase2(true).is_ok());
    assert_eq!(a.fold_log.step_count(), steps + 1);
    let third = b.phase3(&exponents, &idents, &dh, &tags, &data).unwrap();
    assert_eq!(third.hashed_idents.len(), 100);
    assert_eq!(third.hashed_idents[0], ("1".to_string(), "2".to_string()));
    assert_eq!(third.inv_phase1_exponents.len(), 100);
    assert_eq!(third.phase2_dh_output.len(), 100);
    assert_eq!(third.phase2_hidden_tags.len(), 100);
    assert_eq!(third.phase2_hidden_data.len(), 100);
    assert_eq!(third.phase2_hidden_data[3].2.len(), 64);
}

#[test]
fn phase3_with_a_zero_exponent_fails_by_name() {
    let (_, b) = State::initial_states(nordic());
    let exponents = vec![Scalar::from_u64(1), Scalar::zero()];
    match b.phase3(&exponents, &[], &[], &[], &[]) {
        Err(ProtocolError::NonInvertibleExponent { index, exponent }) => {
            assert_eq!(index, 1);
            assert!(exponent.is_zero());
        }
        other => panic!("expected a non-invertible exponent, got {:?}", other),
    }
}

#[test]
fn a_turn_off_the_board_is_not_playable() {
    let (mut a, _) = State::initial_states(nordic());
    assert!(a.turn_is_playable());
    a.append_transaction(Transaction::MoveUnit((0, 0), (9, 9)));
    a.append_transaction(Transaction::CaptureVillage(7));
    assert!(a.turn_is_playable());
    let mut off_board = a.clone();
    off_board.append_transaction(Transaction::MoveUnit((100, 0), (2, 2)));
    assert!(!off_board.turn_is_playable());
    let mut no_village = a.clone();
    no_village.append_transaction(Transaction::CaptureVillage(8));
    assert!(!no_village.turn_is_playable());
}
