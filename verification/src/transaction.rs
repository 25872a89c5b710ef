//! Player actions and the fixed-width numeric form in which the circuits
//! read them.

use crate::error::ProtocolError;
use crate::unit::unit_code;
use crate::unit::unit_of_code;
use crate::unit::Unit;
use vstd::prelude::*;

verus! {

/// The most actions that one turn may hold.
pub const MAX_ACTION_COUNT: usize = 10;

/// The number of slots in an encoded action.
pub const ACTION_WIDTH: usize = 8;

/// A cell of the board, as column and row.
pub type Position = (u64, u64);

/// One action of a player.
#[derive(Copy, Clone, Debug, PartialEq, Eq)]
pub enum Transaction {
    /// Nothing happens. Turns are filled up with it.
    Pass,
    /// The unit at the first cell moves to the second.
    MoveUnit(Position, Position),
    /// The village with the given number is captured.
    CaptureVillage(u64),
    /// A unit of the given kind is bought at the given castle.
    PurchaseUnit(u64, Unit),
}

/// The actions that a player has queued for one turn, in order.
pub type Turn = Vec<Transaction>;

/// A number as a slot holds it: the same 64 bits, read as signed.
pub open spec fn slot(x: u64) -> i64 {
    x as i64
}

/// The number that a slot stands for: the same 64 bits, read as unsigned.
pub open spec fn unslot(x: i64) -> u64 {
    x as u64
}

/// The encoded form of an action: the opcode, then seven slots of which the
/// unused ones hold -1. A move fills the first four with the origin and the
/// destination, a capture the fifth, a purchase the sixth and seventh.
pub open spec fn action_of(t: Transaction) -> Seq<i64> {
    match t {
        Transaction::Pass => seq![0i64, -1i64, -1i64, -1i64, -1i64, -1i64, -1i64, -1i64],
        Transaction::MoveUnit(origin, destination) => seq![
            1i64,
            slot(origin.0),
            slot(origin.1),
            slot(destination.0),
            slot(destination.1),
            -1i64,
            -1i64,
            -1i64,
        ],
        Transaction::CaptureVillage(village) => seq![
            2i64,
            -1i64,
            -1i64,
            -1i64,
            -1i64,
            slot(village),
            -1i64,
            -1i64,
        ],
        Transaction::PurchaseUnit(castle, unit) => seq![
            3i64,
            -1i64,
            -1i64,
            -1i64,
            -1i64,
            -1i64,
            slot(castle),
            slot(unit_code(unit)),
        ],
    }
}

/// The action that eight numbers encode, if they encode one: the opcode is
/// known, every slot that the opcode leaves unused holds -1, and a
/// purchase names a unit kind that exists.
pub open spec fn transaction_of(a: Seq<i64>) -> Option<Transaction> {
    if a.len() != 8 {
        None
    } else if a[0] == 0 && a[1] == -1 && a[2] == -1 && a[3] == -1 && a[4] == -1 && a[5] == -1
        && a[6] == -1 && a[7] == -1 {
        Some(Transaction::Pass)
    } else if a[0] == 1 && a[5] == -1 && a[6] == -1 && a[7] == -1 {
        Some(Transaction::MoveUnit((unslot(a[1]), unslot(a[2])), (unslot(a[3]), unslot(a[4]))))
    } else if a[0] == 2 && a[1] == -1 && a[2] == -1 && a[3] == -1 && a[4] == -1 && a[6] == -1
        && a[7] == -1 {
        Some(Transaction::CaptureVillage(unslot(a[5])))
    } else if a[0] == 3 && a[1] == -1 && a[2] == -1 && a[3] == -1 && a[4] == -1 && a[5] == -1 {
        match unit_of_code(unslot(a[7])) {
            Some(unit) => Some(Transaction::PurchaseUnit(unslot(a[6]), unit)),
            None => None,
        }
    } else {
        None
    }
}

/// Reading a slot gives back the number that was put in it, and putting it
/// back gives the same slot.
pub proof fn lemma_slot_round_trip(x: u64, y: i64)
    ensures
        unslot(slot(x)) == x,
        slot(unslot(y)) == y,
{
    assert((x as i64) as u64 == x) by (bit_vector);
    assert((y as u64) as i64 == y) by (bit_vector);
}

/// Decoding an encoded action gives the action back, whichever of the four
/// kinds it is and however large its numbers are.
pub proof fn lemma_action_round_trip(t: Transaction)
    ensures
        transaction_of(action_of(t)) == Some(t),
{
    match t {
        Transaction::Pass => {},
        Transaction::MoveUnit(origin, destination) => {
            lemma_slot_round_trip(origin.0, 0);
            lemma_slot_round_trip(origin.1, 0);
            lemma_slot_round_trip(destination.0, 0);
            lemma_slot_round_trip(destination.1, 0);
        },
        Transaction::CaptureVillage(village) => {
            lemma_slot_round_trip(village, 0);
        },
        Transaction::PurchaseUnit(castle, unit) => {
            lemma_slot_round_trip(castle, 0);
            lemma_slot_round_trip(unit_code(unit), 0);
        },
    }
}

/// Each action has one encoded form: numbers that decode to an action are
/// the encoding of that action.
pub proof fn lemma_action_canonical(a: Seq<i64>, t: Transaction)
    requires
        transaction_of(a) == Some(t),
    ensures
        action_of(t) == a,
{
    lemma_slot_round_trip(0, a[1]);
    lemma_slot_round_trip(0, a[2]);
    lemma_slot_round_trip(0, a[3]);
    lemma_slot_round_trip(0, a[4]);
    lemma_slot_round_trip(0, a[5]);
    lemma_slot_round_trip(0, a[6]);
    lemma_slot_round_trip(0, a[7]);
    assert(action_of(t) =~= a);
}

/// A turn filled up with `Pass` to the full count of actions.
pub open spec fn padded_turn(turn: Seq<Transaction>) -> Seq<Transaction> {
    Seq::new(
        MAX_ACTION_COUNT as nat,
        |i: int|
            if i < turn.len() {
                turn[i]
            } else {
                Transaction::Pass
            },
    )
}

/// Whether some action of the turn captures the given village.
pub open spec fn captures_village(turn: Seq<Transaction>, village: int) -> bool {
    exists|i: int|
        0 <= i < turn.len() && #[trigger] turn[i] == Transaction::CaptureVillage(village as u64)
}

/// One flag per village: 1 where the turn captures it, 0 elsewhere.
pub open spec fn capture_flags_of(turn: Seq<Transaction>, village_count: nat) -> Seq<u64> {
    Seq::new(
        village_count,
        |v: int|
            if captures_village(turn, v) {
                1u64
            } else {
                0u64
            },
    )
}

/// Whether every village that the turn captures exists.
pub open spec fn captures_in_range(turn: Seq<Transaction>, village_count: nat) -> bool {
    forall|i: int|
        0 <= i < turn.len() ==> (#[trigger] turn[i] matches Transaction::CaptureVillage(v) ==> v
            < village_count)
}

impl Transaction {
    /// The encoded form of the action.
    pub fn to_action(&self) -> (r: [i64; 8])
        ensures
            r@ == action_of(*self),
    {
        let na: i64 = -1;
        let r = match self {
            Transaction::Pass => [0, na, na, na, na, na, na, na],
            Transaction::MoveUnit((orig_x, orig_y), (dest_x, dest_y)) => [
                1,
                *orig_x as i64,
                *orig_y as i64,
                *dest_x as i64,
                *dest_y as i64,
                na,
                na,
                na,
            ],
            Transaction::CaptureVillage(village_id) => [
                2,
                na,
                na,
                na,
                na,
                *village_id as i64,
                na,
                na,
            ],
            Transaction::PurchaseUnit(castle_id, unit) => {
                let unit_id: u64 = unit.code();
                [3, na, na, na, na, na, *castle_id as i64, unit_id as i64]
            },
        };
        proof {
            assert(r@ =~= action_of(*self));
        }
        r
    }

    /// The action that eight numbers encode; `None` where they encode none.
    pub fn from_action(a: &[i64; 8]) -> (r: Option<Transaction>)
        ensures
            r == transaction_of(a@),
    {
        let na: i64 = -1;
        if a[0] == 0 && a[1] == na && a[2] == na && a[3] == na && a[4] == na && a[5] == na && a[6]
            == na && a[7] == na {
            Some(Transaction::Pass)
        } else if a[0] == 1 && a[5] == na && a[6] == na && a[7] == na {
            Some(Transaction::MoveUnit((a[1] as u64, a[2] as u64), (a[3] as u64, a[4] as u64)))
        } else if a[0] == 2 && a[1] == na && a[2] == na && a[3] == na && a[4] == na && a[6] == na
            && a[7] == na {
            Some(Transaction::CaptureVillage(a[5] as u64))
        } else if a[0] == 3 && a[1] == na && a[2] == na && a[3] == na && a[4] == na && a[5] == na {
            match Unit::from_code(a[7] as u64) {
                Some(unit) => Some(Transaction::PurchaseUnit(a[6] as u64, unit)),
                None => None,
            }
        } else {
            None
        }
    }
}

/// The encoded actions of a turn, filled up with `Pass` to exactly
/// `MAX_ACTION_COUNT` entries. A longer turn is refused.
pub fn encode_turn(turn: &[Transaction]) -> (r: Result<Vec<[i64; 8]>, ProtocolError>)
    ensures
        r is Ok <==> turn.len() <= MAX_ACTION_COUNT,
        r matches Ok(actions) ==> actions.len() == MAX_ACTION_COUNT && forall|i: int|
            0 <= i < MAX_ACTION_COUNT ==> (#[trigger] actions[i])@ == action_of(
                padded_turn(turn@)[i],
            ),
        r matches Err(e) ==> e == (ProtocolError::TooManyActions { count: turn.len() }),
{
    if turn.len() > MAX_ACTION_COUNT {
        return Err(ProtocolError::TooManyActions { count: turn.len() });
    }
    let mut actions: Vec<[i64; 8]> = Vec::new();
    let mut k: usize = 0;
    while k < MAX_ACTION_COUNT
        invariant
            k <= MAX_ACTION_COUNT,
            turn.len() <= MAX_ACTION_COUNT,
            actions.len() == k,
            forall|i: int|
                0 <= i < k ==> (#[trigger] actions[i])@ == action_of(padded_turn(turn@)[i]),
        decreases MAX_ACTION_COUNT - k,
    {
        let t = if k < turn.len() {
            turn[k]
        } else {
            Transaction::Pass
        };
        actions.push(t.to_action());
        k += 1;
    }
    Ok(actions)
}

/// Whether every village that the turn captures exists.
pub fn captures_exist(turn: &[Transaction], village_count: usize) -> (r: bool)
    ensures
        r == captures_in_range(turn@, village_count as nat),
{
    let mut k: usize = 0;
    while k < turn.len()
        invariant
            k <= turn.len(),
            captures_in_range(turn@.take(k as int), village_count as nat),
        decreases turn.len() - k,
    {
        if let Transaction::CaptureVillage(village_id) = turn[k] {
            if village_id >= village_count as u64 {
                return false;
            }
        }
        proof {
            let before = turn@.take(k as int);
            let after = turn@.take(k + 1);
            assert forall|i: int| 0 <= i < after.len() implies (#[trigger] after[i]
                matches Transaction::CaptureVillage(v) ==> v < village_count) by {
                if i < k {
                    assert(before[i] == after[i]);
                }
            }
        }
        k += 1;
    }
    proof {
        assert(turn@.take(turn.len() as int) =~= turn@);
    }
    true
}

/// The capture flags of a turn: one per village, 1 where an action of the
/// turn captures the village. Every captured village must exist.
pub fn capture_flags(turn: &[Transaction], village_count: usize) -> (r: Vec<u64>)
    requires
        captures_in_range(turn@, village_count as nat),
    ensures
        r@ == capture_flags_of(turn@, village_count as nat),
{
    let mut flags: Vec<u64> = Vec::new();
    while flags.len() < village_count
        invariant
            flags.len() <= village_count,
            forall|v: int| 0 <= v < flags.len() ==> flags[v] == 0,
        decreases village_count - flags.len(),
    {
        flags.push(0);
    }
    let mut k: usize = 0;
    while k < turn.len()
        invariant
            k <= turn.len(),
            flags.len() == village_count,
            captures_in_range(turn@, village_count as nat),
            flags@ == capture_flags_of(turn@.take(k as int), village_count as nat),
        decreases turn.len() - k,
    {
        let ghost before = turn@.take(k as int);
        let ghost after = turn@.take(k + 1);
        proof {
            assert(after =~= before.push(turn@[k as int]));
        }
        if let Transaction::CaptureVillage(village_id) = turn[k] {
            flags[village_id as usize] = 1;
            proof {
                assert(after[k as int] == Transaction::CaptureVillage(village_id));
                assert forall|v: int| 0 <= v < village_count implies #[trigger] flags@[v]
                    == capture_flags_of(after, village_count as nat)[v] by {
                    lemma_captures_step(before, turn@[k as int], v);
                }
            }
        } else {
            proof {
                assert forall|v: int| 0 <= v < village_count implies #[trigger] flags@[v]
                    == capture_flags_of(after, village_count as nat)[v] by {
                    lemma_captures_step(before, turn@[k as int], v);
                }
            }
        }
        proof {
            assert(flags@ =~= capture_flags_of(after, village_count as nat));
        }
        k += 1;
    }
    proof {
        assert(turn@.take(turn.len() as int) =~= turn@);
    }
    flags
}

/// A turn with one more action captures what it captured before, and the
/// village of the new action if that is a capture.
pub proof fn lemma_captures_step(turn: Seq<Transaction>, next: Transaction, village: int)
    requires
        0 <= village <= u64::MAX,
    ensures
        captures_village(turn.push(next), village) <==> captures_village(turn, village) || next
            == Transaction::CaptureVillage(village as u64),
{
    let longer = turn.push(next);
    if captures_village(turn, village) {
        let i = choose|i: int|
            0 <= i < turn.len() && #[trigger] turn[i] == Transaction::CaptureVillage(
                village as u64,
            );
        assert(longer[i] == turn[i]);
    }
    if next == Transaction::CaptureVillage(village as u64) {
        assert(longer[turn.len() as int] == next);
    }
    if captures_village(longer, village) {
        let i = choose|i: int|
            0 <= i < longer.len() && #[trigger] longer[i] == Transaction::CaptureVillage(
                village as u64,
            );
        if i < turn.len() {
            assert(turn[i] == longer[i]);
        }
    }
}

} // verus!
