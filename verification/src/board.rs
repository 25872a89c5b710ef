//! A player's board: the squares, the resources, the sequence of numbers
//! that the state commitment is taken of, and the moves of a turn.

use crate::transaction::Transaction;
use crate::unit::empty_square;
use crate::unit::lemma_unit_code_round_trip;
use crate::unit::unit_code;
use crate::unit::Square;
use crate::unit::Unit;
use vstd::prelude::*;

verus! {

/// The number of values that stand for one square.
pub const SQUARE_WIDTH: usize = 4;

/// The board of one player and the player's resources. The squares lie row
/// after row: the cell in column `x` of row `y` is at `width * y + x`.
#[derive(Clone, Debug, PartialEq, Eq)]
pub struct CircuitState {
    pub squares: Vec<Square>,
    pub gold_amount: u64,
    pub captured_village_count: u64,
    pub current_upkeep_costs: u64,
}

/// One of the four numbers that stand for a square: the unit's code, the
/// health points, 1 or 0 for captured or not, and the move credits.
pub open spec fn square_field(square: Square, j: int) -> u64 {
    if j == 0 {
        unit_code(square.unit)
    } else if j == 1 {
        square.health_points
    } else if j == 2 {
        if square.captured {
            1
        } else {
            0
        }
    } else {
        square.move_credits
    }
}

/// The four numbers that stand for a square.
pub open spec fn square_row(square: Square) -> Seq<u64> {
    Seq::new(4, |j: int| square_field(square, j))
}

/// The sequence that is hashed to commit to a board: the four numbers of
/// each square in board order, then the gold, the number of captured
/// villages and the upkeep.
pub open spec fn hash_preimage(
    squares: Seq<Square>,
    gold: u64,
    villages: u64,
    upkeep: u64,
) -> Seq<u64> {
    Seq::new(
        4 * squares.len() + 3,
        |i: int|
            if i < 4 * squares.len() {
                square_field(squares[i / 4], i % 4)
            } else if i == 4 * squares.len() {
                gold
            } else if i == 4 * squares.len() + 1 {
                villages
            } else {
                upkeep
            },
    )
}

/// The index of a cell in a board of the given width.
pub open spec fn cell_index(width: u64, position: (u64, u64)) -> int {
    width * position.1 + position.0
}

/// Whether an action can be carried out on a board of `cells` cells: a
/// move must start and end on the board. The other actions always can.
pub open spec fn action_on_board(t: Transaction, width: u64, cells: nat) -> bool {
    t matches Transaction::MoveUnit(origin, destination) ==> cell_index(width, origin) < cells
        && cell_index(width, destination) < cells
}

/// Whether every action of a turn can be carried out.
pub open spec fn turn_on_board(turn: Seq<Transaction>, width: u64, cells: nat) -> bool {
    forall|i: int| 0 <= i < turn.len() ==> action_on_board(#[trigger] turn[i], width, cells)
}

/// The squares after one action. A move puts the origin's square on the
/// destination and leaves the origin empty; no other action changes the
/// board.
pub open spec fn squares_after(squares: Seq<Square>, t: Transaction, width: u64) -> Seq<Square> {
    match t {
        Transaction::MoveUnit(origin, destination) => squares.update(
            cell_index(width, destination),
            squares[cell_index(width, origin)],
        ).update(cell_index(width, origin), empty_square()),
        _ => squares,
    }
}

/// The squares after the actions of a turn, carried out in order.
pub open spec fn squares_after_turn(
    squares: Seq<Square>,
    turn: Seq<Transaction>,
    width: u64,
) -> Seq<Square>
    decreases turn.len(),
{
    if turn.len() == 0 {
        squares
    } else {
        squares_after(squares_after_turn(squares, turn.drop_last(), width), turn.last(), width)
    }
}

/// A turn leaves the number of squares as it is.
pub proof fn lemma_turn_keeps_size(squares: Seq<Square>, turn: Seq<Transaction>, width: u64)
    requires
        turn_on_board(turn, width, squares.len()),
    ensures
        squares_after_turn(squares, turn, width).len() == squares.len(),
    decreases turn.len(),
{
    if turn.len() > 0 {
        let earlier = turn.drop_last();
        assert forall|i: int| 0 <= i < earlier.len() implies action_on_board(
            #[trigger] earlier[i],
            width,
            squares.len(),
        ) by {
            assert(earlier[i] == turn[i]);
        }
        lemma_turn_keeps_size(squares, earlier, width);
        assert(action_on_board(turn[turn.len() - 1], width, squares.len()));
    }
}

/// Two squares with the same four numbers are the same square.
pub proof fn lemma_square_row_injective(a: Square, b: Square)
    requires
        square_row(a) == square_row(b),
    ensures
        a == b,
{
    lemma_square_row_index(a);
    lemma_square_row_index(b);
    lemma_unit_code_round_trip(a.unit, 0);
    lemma_unit_code_round_trip(b.unit, 0);
    assert(a.unit == b.unit);
    assert(a.captured == b.captured);
}

/// The four numbers of a square, one by one.
pub proof fn lemma_square_row_index(a: Square)
    ensures
        square_row(a).len() == 4,
        square_row(a)[0] == unit_code(a.unit),
        square_row(a)[1] == a.health_points,
        square_row(a)[2] == square_field(a, 2),
        square_row(a)[3] == a.move_credits,
{
}

/// The committed sequence depends on the content of a state alone: two
/// states with the same squares and the same resources are committed to by
/// the same sequence.
pub proof fn lemma_hash_preimage_determined(a: CircuitState, b: CircuitState)
    requires
        a.squares@ == b.squares@,
        a.gold_amount == b.gold_amount,
        a.captured_village_count == b.captured_village_count,
        a.current_upkeep_costs == b.current_upkeep_costs,
    ensures
        a.preimage() == b.preimage(),
{
}

/// The committed sequence tells boards apart: two states with the same
/// sequence have the same squares and the same resources. So a change to
/// any field of any square, or to any resource, changes what is hashed.
pub proof fn lemma_hash_preimage_injective(a: CircuitState, b: CircuitState)
    requires
        a.preimage() == b.preimage(),
    ensures
        a.squares@ == b.squares@,
        a.gold_amount == b.gold_amount,
        a.captured_village_count == b.captured_village_count,
        a.current_upkeep_costs == b.current_upkeep_costs,
{
    let pa = a.preimage();
    let pb = b.preimage();
    let n = a.squares@.len() as int;
    assert(pa.len() == 4 * a.squares@.len() + 3);
    assert(pb.len() == 4 * b.squares@.len() + 3);
    assert(n == b.squares@.len());
    assert(pa[4 * n] == pb[4 * n]);
    assert(pa[4 * n + 1] == pb[4 * n + 1]);
    assert(pa[4 * n + 2] == pb[4 * n + 2]);
    assert(a.gold_amount == pa[4 * n]);
    assert(b.gold_amount == pb[4 * n]);
    assert(a.captured_village_count == pa[4 * n + 1]);
    assert(b.captured_village_count == pb[4 * n + 1]);
    assert(a.current_upkeep_costs == pa[4 * n + 2]);
    assert(b.current_upkeep_costs == pb[4 * n + 2]);
    assert forall|k: int| 0 <= k < n implies a.squares@[k] == b.squares@[k] by {
        assert forall|j: int| 0 <= j < 4 implies square_field(a.squares@[k], j) == square_field(
            b.squares@[k],
            j,
        ) by {
            assert((4 * k + j) / 4 == k);
            assert((4 * k + j) % 4 == j);
            assert(pa[4 * k + j] == square_field(a.squares@[k], j));
            assert(pb[4 * k + j] == square_field(b.squares@[k], j));
        }
        assert(square_row(a.squares@[k]) =~= square_row(b.squares@[k]));
        lemma_square_row_injective(a.squares@[k], b.squares@[k]);
    }
    assert(a.squares@ =~= b.squares@);
}

/// The four numbers that stand for a square, as the circuits read them.
pub fn square_values(square: &Square) -> (r: [u64; 4])
    ensures
        r@ == square_row(*square),
{
    let r = [
        square.unit.code(),
        square.health_points,
        if square.captured {
            1
        } else {
            0
        },
        square.move_credits,
    ];
    proof {
        assert(r@ =~= square_row(*square));
    }
    r
}

/// The index of a cell, where it lies below `cells`.
pub fn checked_cell_index(width: u64, position: (u64, u64), cells: usize) -> (r: Option<usize>)
    ensures
        r is Some <==> cell_index(width, position) < cells,
        r matches Some(i) ==> i == cell_index(width, position),
{
    match width.checked_mul(position.1) {
        Some(row_start) => match row_start.checked_add(position.0) {
            Some(index) => {
                if index < cells as u64 {
                    Some(index as usize)
                } else {
                    None
                }
            },
            None => None,
        },
        None => {
            proof {
                assert(width * position.1 + position.0 >= cells) by (nonlinear_arith)
                    requires
                        width * position.1 > u64::MAX,
                        cells <= u64::MAX,
                ;
            }
            None
        },
    }
}

impl CircuitState {
    /// The sequence that this state is committed to by.
    pub open spec fn preimage(&self) -> Seq<u64> {
        hash_preimage(
            self.squares@,
            self.gold_amount,
            self.captured_village_count,
            self.current_upkeep_costs,
        )
    }

    /// The input of the state commitment: the flattened squares followed
    /// by the three resources. It depends on the content of the state and
    /// on nothing else.
    pub fn hash_input(&self) -> (r: Vec<u64>)
        ensures
            r@ == self.preimage(),
    {
        let mut out: Vec<u64> = Vec::new();
        let mut k: usize = 0;
        while k < self.squares.len()
            invariant
                k <= self.squares.len(),
                out.len() == 4 * k,
                forall|i: int|
                    0 <= i < 4 * k ==> #[trigger] out[i] == square_field(
                        self.squares@[i / 4],
                        i % 4,
                    ),
            decreases self.squares.len() - k,
        {
            let square = self.squares[k];
            out.push(square.unit.code());
            out.push(square.health_points);
            out.push(
                if square.captured {
                    1
                } else {
                    0
                },
            );
            out.push(square.move_credits);
            k += 1;
        }
        out.push(self.gold_amount);
        out.push(self.captured_village_count);
        out.push(self.current_upkeep_costs);
        proof {
            assert(out@ =~= self.preimage());
        }
        out
    }

    /// Each square as its four numbers, in board order.
    pub fn square_rows(&self) -> (r: Vec<[u64; 4]>)
        ensures
            r.len() == self.squares.len(),
            forall|i: int| 0 <= i < r.len() ==> (#[trigger] r[i])@ == square_row(self.squares@[i]),
    {
        let mut out: Vec<[u64; 4]> = Vec::new();
        let mut k: usize = 0;
        while k < self.squares.len()
            invariant
                k <= self.squares.len(),
                out.len() == k,
                forall|i: int| 0 <= i < k ==> (#[trigger] out[i])@ == square_row(self.squares@[i]),
            decreases self.squares.len() - k,
        {
            out.push(square_values(&self.squares[k]));
            k += 1;
        }
        out
    }

    /// The three resources: gold, captured villages, upkeep.
    pub fn misc_values(&self) -> (r: [u64; 3])
        ensures
            r@ == seq![self.gold_amount, self.captured_village_count, self.current_upkeep_costs],
    {
        let r = [self.gold_amount, self.captured_village_count, self.current_upkeep_costs];
        proof {
            assert(r@ =~= seq![
                self.gold_amount,
                self.captured_village_count,
                self.current_upkeep_costs,
            ]);
        }
        r
    }

    /// Whether every move of the turn starts and ends on this board.
    pub fn accepts_turn(&self, width: u64, turn: &[Transaction]) -> (r: bool)
        ensures
            r == turn_on_board(turn@, width, self.squares@.len()),
    {
        let mut k: usize = 0;
        while k < turn.len()
            invariant
                k <= turn.len(),
                forall|i: int|
                    0 <= i < k ==> action_on_board(#[trigger] turn@[i], width, self.squares@.len()),
            decreases turn.len() - k,
        {
            if let Transaction::MoveUnit(origin, destination) = turn[k] {
                let from = checked_cell_index(width, origin, self.squares.len());
                let to = checked_cell_index(width, destination, self.squares.len());
                if from.is_none() || to.is_none() {
                    proof {
                        assert(!action_on_board(turn@[k as int], width, self.squares@.len()));
                    }
                    return false;
                }
            }
            k += 1;
        }
        true
    }

    /// Carries out the actions of a turn, in order. Only moves change the
    /// board: the square at the origin goes to the destination and the
    /// origin is left empty. Every move must start and end on the board.
    pub fn apply_turn(&mut self, width: u64, turn: &[Transaction])
        requires
            turn_on_board(turn@, width, old(self).squares@.len()),
        ensures
            final(self).squares@ == squares_after_turn(old(self).squares@, turn@, width),
            final(self).squares@.len() == old(self).squares@.len(),
            final(self).gold_amount == old(self).gold_amount,
            final(self).captured_village_count == old(self).captured_village_count,
            final(self).current_upkeep_costs == old(self).current_upkeep_costs,
    {
        let mut k: usize = 0;
        while k < turn.len()
            invariant
                k <= turn.len(),
                turn_on_board(turn@, width, old(self).squares@.len()),
                self.squares@.len() == old(self).squares@.len(),
                self.squares@ == squares_after_turn(
                    old(self).squares@,
                    turn@.take(k as int),
                    width,
                ),
                self.gold_amount == old(self).gold_amount,
                self.captured_village_count == old(self).captured_village_count,
                self.current_upkeep_costs == old(self).current_upkeep_costs,
            decreases turn.len() - k,
        {
            proof {
                assert(turn@.take(k + 1).drop_last() =~= turn@.take(k as int));
                assert(turn@.take(k + 1).last() == turn@[k as int]);
                assert(action_on_board(turn@[k as int], width, old(self).squares@.len()));
            }
            if let Transaction::MoveUnit(origin, destination) = turn[k] {
                let from = checked_cell_index(width, origin, self.squares.len());
                let to = checked_cell_index(width, destination, self.squares.len());
                if let (Some(from), Some(to)) = (from, to) {
                    let moved = self.squares[from];
                    self.squares[to] = moved;
                    self.squares[from] = Square {
                        unit: Unit::Empty,
                        health_points: 0,
                        captured: false,
                        move_credits: 0,
                    };
                }
            }
            k += 1;
        }
        proof {
            assert(turn@.take(turn.len() as int) =~= turn@);
        }
    }
}

} // verus!
