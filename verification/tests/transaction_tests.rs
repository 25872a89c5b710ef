use wesnoth_zk::error::ProtocolError;
use wesnoth_zk::transaction::capture_flags;
use wesnoth_zk::transaction::captures_exist;
use wesnoth_zk::transaction::encode_turn;
use wesnoth_zk::transaction::Transaction;
use wesnoth_zk::transaction::MAX_ACTION_COUNT;
use wesnoth_zk::unit::Unit;

#[test]
fn pass_is_opcode_zero() {
    assert_eq!(Transaction::Pass.to_action(), [0, -1, -1, -1, -1, -1, -1, -1]);
}

#[test]
fn move_fills_the_first_four_slots() {
    assert_eq!(
        Transaction::MoveUnit((1, 2), (3, 4)).to_action(),
        [1, 1, 2, 3, 4, -1, -1, -1]
    );
}

#[test]
fn capture_fills_the_fifth_slot() {
    assert_eq!(Transaction::CaptureVillage(7).to_action(), [2, -1, -1, -1, -1, 7, -1, -1]);
}

#[test]
fn purchase_fills_the_last_two_slots() {
    assert_eq!(
        Transaction::PurchaseUnit(5, Unit::OrcSoldier).to_action(),
        [3, -1, -1, -1, -1, -1, 5, 2]
    );
    assert_eq!(
        Transaction::PurchaseUnit(0, Unit::OrcCommander).to_action(),
        [3, -1, -1, -1, -1, -1, 0, 1]
    );
}

#[test]
fn round_trip_of_each_kind() {
    let all = [
        Transaction::Pass,
        Transaction::MoveUnit((0, 0), (9, 9)),
        Transaction::CaptureVillage(3),
        Transaction::PurchaseUnit(2, Unit::OrcSoldier),
        Transaction::PurchaseUnit(2, Unit::Empty),
    ];
    for t in all {
        assert_eq!(Transaction::from_action(&t.to_action()), Some(t));
    }
}

#[test]
fn round_trip_at_the_largest_numbers() {
    let all = [
        Transaction::CaptureVillage(u64::MAX),
        Transaction::CaptureVillage(i64::MAX as u64),
        Transaction::CaptureVillage(i64::MAX as u64 + 1),
        Transaction::PurchaseUnit(u64::MAX, Unit::OrcSoldier),
        Transaction::MoveUnit((u64::MAX, u64::MAX - 1), (u64::MAX - 2, 0)),
    ];
    for t in all {
        assert_eq!(Transaction::from_action(&t.to_action()), Some(t));
    }
}

#[test]
fn decoding_refuses_what_is_no_encoding() {
    assert_eq!(Transaction::from_action(&[4, -1, -1, -1, -1, -1, -1, -1]), None);
    assert_eq!(Transaction::from_action(&[-1, -1, -1, -1, -1, -1, -1, -1]), None);
    assert_eq!(Transaction::from_action(&[0, 0, -1, -1, -1, -1, -1, -1]), None);
    assert_eq!(Transaction::from_action(&[1, 1, 2, 3, 4, 0, -1, -1]), None);
    assert_eq!(Transaction::from_action(&[2, 0, -1, -1, -1, 7, -1, -1]), None);
    assert_eq!(Transaction::from_action(&[3, -1, -1, -1, -1, -1, 5, 3]), None);
    assert_eq!(Transaction::from_action(&[3, -1, -1, -1, -1, -1, 5, -1]), None);
}

#[test]
fn decoding_gives_the_encoded_action() {
    assert_eq!(
        Transaction::from_action(&[1, 1, 2, 3, 4, -1, -1, -1]),
        Some(Transaction::MoveUnit((1, 2), (3, 4)))
    );
    assert_eq!(
        Transaction::from_action(&[2, -1, -1, -1, -1, -1, -1, -1]),
        Some(Transaction::CaptureVillage(u64::MAX))
    );
}

#[test]
fn empty_turn_is_ten_passes() {
    let actions = encode_turn(&[]).unwrap();
    assert_eq!(actions.len(), MAX_ACTION_COUNT);
    for a in actions {
        assert_eq!(a, [0, -1, -1, -1, -1, -1, -1, -1]);
    }
}

#[test]
fn short_turn_is_filled_up() {
    let turn = [Transaction::CaptureVillage(1), Transaction::MoveUnit((0, 0), (1, 1))];
    let actions = encode_turn(&turn).unwrap();
    assert_eq!(actions.len(), 10);
    assert_eq!(actions[0], [2, -1, -1, -1, -1, 1, -1, -1]);
    assert_eq!(actions[1], [1, 0, 0, 1, 1, -1, -1, -1]);
    for a in &actions[2..] {
        assert_eq!(*a, [0, -1, -1, -1, -1, -1, -1, -1]);
    }
}

#[test]
fn full_turn_is_accepted() {
    let turn = vec![Transaction::CaptureVillage(2); 10];
    let actions = encode_turn(&turn).unwrap();
    assert_eq!(actions.len(), 10);
    assert_eq!(actions[9], [2, -1, -1, -1, -1, 2, -1, -1]);
}

#[test]
fn eleventh_action_is_refused() {
    let turn = vec![Transaction::Pass; 11];
    match encode_turn(&turn) {
        Err(ProtocolError::TooManyActions { count }) => assert_eq!(count, 11),
        other => panic!("expected a refusal, got {:?}", other),
    }
}

#[test]
fn capture_flags_mark_the_captured_villages() {
    let turn = [
        Transaction::CaptureVillage(3),
        Transaction::MoveUnit((0, 0), (1, 1)),
        Transaction::CaptureVillage(0),
        Transaction::CaptureVillage(3),
        Transaction::PurchaseUnit(7, Unit::OrcSoldier),
    ];
    assert_eq!(capture_flags(&turn, 8), vec![1, 0, 0, 1, 0, 0, 0, 0]);
}

#[test]
fn capture_flags_of_a_quiet_turn_are_zero() {
    assert_eq!(capture_flags(&[], 8), vec![0; 8]);
    assert_eq!(capture_flags(&[Transaction::Pass], 0), Vec::<u64>::new());
}

#[test]
fn captured_villages_must_exist() {
    assert!(captures_exist(&[], 0));
    assert!(captures_exist(&[Transaction::CaptureVillage(7)], 8));
    assert!(!captures_exist(&[Transaction::CaptureVillage(8)], 8));
    assert!(!captures_exist(&[Transaction::Pass, Transaction::CaptureVillage(u64::MAX)], 8));
    assert!(captures_exist(&[Transaction::MoveUnit((9, 9), (9, 9)), Transaction::Pass], 0));
    assert!(captures_exist(&[Transaction::PurchaseUnit(100, Unit::OrcSoldier)], 8));
}
