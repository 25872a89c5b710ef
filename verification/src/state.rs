//! The state of one player, and the three steps of a turn as far as they
//! are decided here: what is asked of each constraint program and what is
//! made of its reply.

use crate::accumulator::FoldLog;
use crate::board::squares_after_turn;
use crate::board::turn_on_board;
use crate::board::CircuitState;
use crate::error::ProtocolError;
use crate::exponent::all_invertible;
use crate::exponent::are_inverses;
use crate::exponent::first_non_unit;
use crate::exponent::group_order;
use crate::exponent::is_blinding_exponent;
use crate::exponent::order;
use crate::exponent::random_exponents;
use crate::request::hash_request;
use crate::request::phase1_matches;
use crate::request::phase1_request;
use crate::request::phase2_matches;
use crate::request::phase2_request;
use crate::request::phase3_matches;
use crate::request::phase3_request;
use crate::request::zeros;
use crate::request::zeros_of;
use crate::request::HashObject;
use crate::request::Pair;
use crate::request::Phase1;
use crate::request::Phase2;
use crate::request::Phase3;
use crate::request::Triple;
use crate::scalar::Scalar;
use crate::transaction::captures_exist;
use crate::transaction::captures_in_range;
use crate::transaction::Transaction;
use crate::transaction::MAX_ACTION_COUNT;
use crate::unit::commander_unit;
use crate::unit::empty_square;
use crate::unit::starting_square;
use crate::unit::Commander;
use crate::unit::Square;
use crate::unit::Unit;
use vstd::prelude::*;

verus! {

/// The gold that each player starts with.
pub const STARTING_GOLD: u64 = 100;

/// How a game begins: the map with its size, and the commander of each of
/// the two players.
#[derive(Copy, Clone, Debug, PartialEq, Eq)]
pub enum InitialState {
    Nordic((u64, u64), Commander, Commander),
}

impl InitialState {
    /// The number of cells of the map.
    pub open spec fn cells(&self) -> nat {
        match self {
            InitialState::Nordic(size, _, _) => (size.0 * size.1) as nat,
        }
    }

    /// The number of villages of the map.
    pub open spec fn villages(&self) -> nat {
        8
    }

    /// The width and the height of the map.
    pub open spec fn size_spec(&self) -> (u64, u64) {
        match self {
            InitialState::Nordic(size, _, _) => *size,
        }
    }

    /// The directory under which the constraint programs of the map lie.
    pub fn circuit_path(&self) -> (r: &'static str)
        ensures
            r@ == "wesnoth-zkpsi/"@,
    {
        match self {
            InitialState::Nordic(_, _, _) => "wesnoth-zkpsi/",
        }
    }

    /// The width and the height of the map.
    pub fn size(&self) -> (r: (u64, u64))
        ensures
            r == self.size_spec(),
            r.0 * r.1 == self.cells(),
    {
        match self {
            InitialState::Nordic(size, _, _) => *size,
        }
    }

    /// The number of villages of the map.
    pub fn village_count(&self) -> (r: u64)
        ensures
            r == self.villages(),
    {
        match self {
            InitialState::Nordic(_, _, _) => 8,
        }
    }

    /// The number of cells of the map, where a board of that many cells
    /// can be held: `None` for a map without cells or with more than can
    /// be counted.
    pub fn cell_count(&self) -> (r: Option<usize>)
        ensures
            r is Some <==> 0 < self.cells() <= usize::MAX,
            r matches Some(n) ==> n == self.cells(),
    {
        let (width, height) = self.size();
        match width.checked_mul(height) {
            Some(cells) => {
                if cells == 0 || cells > usize::MAX as u64 {
                    None
                } else {
                    Some(cells as usize)
                }
            },
            None => None,
        }
    }
}

/// What a player has learnt in the clear: the digest of the last turn, the
/// damage that each own unit took, and which villages either side holds.
#[derive(Clone, Debug)]
pub struct UnencryptedData {
    pub last_hash: Scalar,
    pub own_received_damage: Vec<u64>,
    pub adversary_captures: Vec<u64>,
    pub allied_captures: Vec<u64>,
}

impl UnencryptedData {
    /// The knowledge of a player before the first turn: no digest, no
    /// damage on any cell, no village captured by either side.
    pub fn init(initial_state: InitialState) -> (r: UnencryptedData)
        requires
            initial_state.cells() <= usize::MAX,
        ensures
            r.last_hash@ == 0,
            r.own_received_damage@ == zeros_of(initial_state.cells()),
            r.adversary_captures@ == zeros_of(initial_state.villages()),
            r.allied_captures@ == zeros_of(initial_state.villages()),
    {
        let (width, height) = initial_state.size();
        let village_count = initial_state.village_count() as usize;
        UnencryptedData {
            last_hash: Scalar::zero(),
            own_received_damage: zeros((width * height) as usize),
            adversary_captures: zeros(village_count),
            allied_captures: zeros(village_count),
        }
    }
}

/// The state of one player: the board, what the player knows in the
/// clear, the turn that is queued, and the record of the proof accumulator.
#[derive(Clone, Debug)]
pub struct State {
    pub circuit_state: CircuitState,
    pub unencrypted_state: UnencryptedData,
    pub initial_state: InitialState,
    pub pending_transactions: Vec<Transaction>,
    pub roll_hash: Scalar,
    pub fold_log: FoldLog,
}

/// A board of `cells` squares that is empty but for one square.
pub open spec fn board_with(cells: nat, place: int, square: Square) -> Seq<Square> {
    Seq::new(
        cells,
        |i: int|
            if i == place {
                square
            } else {
                empty_square()
            },
    )
}

/// A board of `cells` squares that is empty but for one square.
fn single_unit_board(cells: usize, place: usize, square: Square) -> (r: Vec<Square>)
    ensures
        r@ == board_with(cells as nat, place as int, square),
{
    let mut squares: Vec<Square> = Vec::new();
    while squares.len() < cells
        invariant
            squares.len() <= cells,
            squares@ == board_with(squares.len() as nat, place as int, square),
        decreases cells - squares.len(),
    {
        let ghost before = squares@;
        if squares.len() == place {
            squares.push(square);
        } else {
            squares.push(Unit::Empty.default_square());
        }
        proof {
            assert(squares@ =~= board_with(squares.len() as nat, place as int, square));
        }
    }
    squares
}

impl State {
    /// Whether the board has as many squares as the map has cells.
    pub open spec fn wf(&self) -> bool {
        self.circuit_state.squares@.len() == self.initial_state.cells()
    }

    /// Whether this is the state in which a player starts: the commander's
    /// square at `place` of an otherwise empty board, the starting gold,
    /// no village, no upkeep, no queued action, no folded step.
    pub open spec fn is_start(&self, initial_state: InitialState, place: int, leader: Commander) -> bool {
        &&& self.initial_state == initial_state
        &&& self.circuit_state.squares@ == board_with(
            initial_state.cells(),
            place,
            starting_square(commander_unit(leader)),
        )
        &&& self.circuit_state.gold_amount == STARTING_GOLD
        &&& self.circuit_state.captured_village_count == 0
        &&& self.circuit_state.current_upkeep_costs == 0
        &&& self.pending_transactions@.len() == 0
        &&& self.roll_hash@ == 0
        &&& self.fold_log.steps == 0
        &&& self.unencrypted_state.last_hash@ == 0
        &&& self.unencrypted_state.own_received_damage@ == zeros_of(initial_state.cells())
        &&& self.unencrypted_state.adversary_captures@ == zeros_of(initial_state.villages())
        &&& self.unencrypted_state.allied_captures@ == zeros_of(initial_state.villages())
    }

    /// The states of the two players at the start of a game. The first
    /// player's commander stands on the first cell of the first player's
    /// board, the second player's on the last cell of the second player's.
    /// The map must have a cell.
    pub fn initial_states(initial_state: InitialState) -> (r: (State, State))
        requires
            0 < initial_state.cells() <= usize::MAX,
        ensures
            r.0.wf(),
            r.1.wf(),
            initial_state matches InitialState::Nordic(_, a, b) && r.0.is_start(initial_state, 0, a)
                && r.1.is_start(initial_state, initial_state.cells() - 1, b),
    {
        match initial_state {
            InitialState::Nordic((w, h), a, b) => {
                let a: Unit = Unit::from(a);
                let b: Unit = Unit::from(b);
                let cells = (w * h) as usize;
                let map_a = single_unit_board(cells, 0, a.default_square());
                let map_b = single_unit_board(cells, cells - 1, b.default_square());
                let sa = State {
                    circuit_state: CircuitState {
                        squares: map_a,
                        gold_amount: STARTING_GOLD,
                        captured_village_count: 0,
                        current_upkeep_costs: 0,
                    },
                    unencrypted_state: UnencryptedData::init(initial_state),
                    initial_state,
                    pending_transactions: Vec::new(),
                    roll_hash: Scalar::zero(),
                    fold_log: FoldLog::new(),
                };
                let sb = State {
                    circuit_state: CircuitState {
                        squares: map_b,
                        gold_amount: STARTING_GOLD,
                        captured_village_count: 0,
                        current_upkeep_costs: 0,
                    },
                    unencrypted_state: UnencryptedData::init(initial_state),
                    initial_state,
                    pending_transactions: Vec::new(),
                    roll_hash: Scalar::zero(),
                    fold_log: FoldLog::new(),
                };
                (sa, sb)
            },
        }
    }

    /// Queues one more action for the player's next turn.
    pub fn append_transaction(&mut self, transaction: Transaction)
        ensures
            final(self).pending_transactions@ == old(self).pending_transactions@.push(transaction),
            old(self).wf() ==> final(self).wf(),
            final(self).circuit_state == old(self).circuit_state,
            final(self).initial_state == old(self).initial_state,
            final(self).fold_log == old(self).fold_log,
            final(self).roll_hash == old(self).roll_hash,
            final(self).unencrypted_state == old(self).unencrypted_state,
    {
        self.pending_transactions.push(transaction);
    }

    /// The request by which the commitment program hashes the board as it
    /// stands.
    pub fn hash(&self) -> (r: HashObject)
        ensures
            r.to_hash@ == self.circuit_state.preimage(),
    {
        hash_request(&self.circuit_state)
    }

    /// The commitment that chains the turns. It is not computed yet and is
    /// always zero.
    pub fn roll_hash(&self) -> (r: Scalar)
        ensures
            r@ == 0,
    {
        Scalar::zero()
    }

    /// The first step, taken by the responder: draws one blinding exponent
    /// for each cell and makes the request for the first program. The
    /// exponents stay with the responder for the third step, which can
    /// invert every one of them.
    pub fn phase1(&self) -> (r: (Vec<Scalar>, Phase1))
        ensures
            r.0.len() == self.circuit_state.squares.len(),
            forall|i: int| 0 <= i < r.0.len() ==> is_blinding_exponent(#[trigger] r.0[i]@),
            all_invertible(r.0@),
            phase1_matches(r.1, self.circuit_state, self.initial_state.villages(), r.0@),
    {
        let exponents = random_exponents(self.circuit_state.squares.len());
        let request = phase1_request(
            &self.circuit_state,
            self.initial_state.village_count() as usize,
            exponents.as_slice(),
        );
        (exponents, request)
    }

    /// Whether the queued turn can be played on this board: every move
    /// starts and ends on the board and every captured village exists.
    pub fn turn_is_playable(&self) -> (r: bool)
        ensures
            r == (turn_on_board(
                self.pending_transactions@,
                self.initial_state.size_spec().0,
                self.circuit_state.squares@.len(),
            ) && captures_in_range(self.pending_transactions@, self.initial_state.villages())),
    {
        let (width, _) = self.initial_state.size();
        self.circuit_state.accepts_turn(width, self.pending_transactions.as_slice())
            && captures_exist(
            self.pending_transactions.as_slice(),
            self.initial_state.village_count() as usize,
        )
    }

    /// Opens the second step, taken by the initiator: carries out the
    /// queued turn on the board. A turn of more than `MAX_ACTION_COUNT`
    /// actions is refused before anything is changed, whatever it holds.
    /// Every move of a turn of no more actions must start and end on the
    /// board.
    pub fn begin_phase2(&mut self) -> (r: Result<(), ProtocolError>)
        requires
            old(self).pending_transactions@.len() <= MAX_ACTION_COUNT ==> turn_on_board(
                old(self).pending_transactions@,
                old(self).initial_state.size_spec().0,
                old(self).circuit_state.squares@.len(),
            ),
        ensures
            r is Ok <==> old(self).pending_transactions@.len() <= MAX_ACTION_COUNT,
            r is Ok ==> final(self).circuit_state.squares@ == squares_after_turn(
                old(self).circuit_state.squares@,
                old(self).pending_transactions@,
                old(self).initial_state.size_spec().0,
            ),
            r matches Err(e) ==> e == (ProtocolError::TooManyActions {
                count: old(self).pending_transactions.len(),
            }) && final(self).circuit_state == old(self).circuit_state,
            old(self).wf() ==> final(self).wf(),
            final(self).circuit_state.squares@.len() == old(self).circuit_state.squares@.len(),
            final(self).circuit_state.gold_amount == old(self).circuit_state.gold_amount,
            final(self).circuit_state.captured_village_count == old(
                self,
            ).circuit_state.captured_village_count,
            final(self).circuit_state.current_upkeep_costs == old(
                self,
            ).circuit_state.current_upkeep_costs,
            final(self).pending_transactions == old(self).pending_transactions,
            final(self).initial_state == old(self).initial_state,
            final(self).fold_log == old(self).fold_log,
            final(self).roll_hash == old(self).roll_hash,
            final(self).unencrypted_state == old(self).unencrypted_state,
    {
        if self.pending_transactions.len() > MAX_ACTION_COUNT {
            return Err(ProtocolError::TooManyActions { count: self.pending_transactions.len() });
        }
        let (width, _) = self.initial_state.size();
        self.circuit_state.apply_turn(width, self.pending_transactions.as_slice());
        Ok(())
    }

    /// The request of the second step, for the board as it stands after
    /// the turn: draws the initiator's exponents, one for each cell and one
    /// more, and puts them with the digest of the board, the turn and what
    /// the responder sent. A turn of more than `MAX_ACTION_COUNT` actions
    /// is refused, whatever it holds. The villages that a turn of no more
    /// actions captures must exist.
    pub fn phase2(&self, digest: &Scalar, received: &[Pair]) -> (r: Result<Phase2, ProtocolError>)
        requires
            self.pending_transactions@.len() <= MAX_ACTION_COUNT ==> captures_in_range(
                self.pending_transactions@,
                self.initial_state.villages(),
            ),
        ensures
            r is Ok <==> self.pending_transactions@.len() <= MAX_ACTION_COUNT,
            r matches Ok(request) ==> self.phase2_request_drawn(request, digest@, received@),
            r matches Err(e) ==> e == (ProtocolError::TooManyActions {
                count: self.pending_transactions.len(),
            }),
    {
        if self.pending_transactions.len() > MAX_ACTION_COUNT {
            return Err(ProtocolError::TooManyActions { count: self.pending_transactions.len() });
        }
        let exponent = Scalar::random_below(&order());
        let own_exponents = random_exponents(self.circuit_state.squares.len());
        let rolling = self.roll_hash();
        let r = phase2_request(
            digest,
            &rolling,
            &self.circuit_state,
            self.pending_transactions.as_slice(),
            self.initial_state.village_count() as usize,
            &exponent,
            own_exponents.as_slice(),
            received,
        );
        proof {
            if r is Ok {
                assert(self.phase2_request_with(
                    r->Ok_0,
                    digest@,
                    received@,
                    exponent@,
                    own_exponents@,
                ));
            }
        }
        r
    }

    /// Whether `request` is the request of the second step for this state
    /// with the given draws: an extra exponent below the group order and
    /// one blinding exponent for each cell, each with an inverse modulo
    /// the group order.
    pub open spec fn phase2_request_with(
        &self,
        request: Phase2,
        digest: nat,
        received: Seq<Pair>,
        exponent: nat,
        own_exponents: Seq<Scalar>,
    ) -> bool {
        &&& exponent < group_order()
        &&& own_exponents.len() == self.circuit_state.squares@.len()
        &&& forall|i: int|
            0 <= i < own_exponents.len() ==> is_blinding_exponent(#[trigger] own_exponents[i]@)
        &&& all_invertible(own_exponents)
        &&& phase2_matches(
            request,
            digest,
            0,
            self.circuit_state,
            self.pending_transactions@,
            self.initial_state.villages(),
            exponent,
            own_exponents,
            received,
        )
    }

    /// Whether `request` is the request of the second step for this state
    /// with some draws.
    pub open spec fn phase2_request_drawn(
        &self,
        request: Phase2,
        digest: nat,
        received: Seq<Pair>,
    ) -> bool {
        exists|exponent: nat, own_exponents: Seq<Scalar>| #[trigger]
            self.phase2_request_with(request, digest, received, exponent, own_exponents)
    }

    /// Closes the second step: records whether the accumulator folded the
    /// step. A folded step raises the step count by exactly one; a
    /// refused one is a failure.
    pub fn finish_phase2(&mut self, folded: bool) -> (r: Result<(), ProtocolError>)
        requires
            old(self).fold_log.steps < usize::MAX,
        ensures
            r is Ok <==> folded,
            folded ==> final(self).fold_log.steps == old(self).fold_log.steps + 1,
            !folded ==> final(self).fold_log.steps == old(self).fold_log.steps,
            r matches Err(e) ==> e == ProtocolError::FoldFailed,
            old(self).wf() ==> final(self).wf(),
            final(self).circuit_state == old(self).circuit_state,
            final(self).pending_transactions == old(self).pending_transactions,
            final(self).initial_state == old(self).initial_state,
            final(self).roll_hash == old(self).roll_hash,
            final(self).unencrypted_state == old(self).unencrypted_state,
    {
        self.fold_log.record(folded)
    }

    /// The third step, taken by the responder: inverts the exponents of
    /// the first step and makes the request for the third program. An
    /// exponent without an inverse is a failure that names it.
    pub fn phase3(
        &self,
        exponents: &[Scalar],
        hashed_idents: &[Pair],
        dh_output: &[Pair],
        hidden_tags: &[Pair],
        hidden_data: &[Triple],
    ) -> (r: Result<Phase3, ProtocolError>)
        ensures
            r is Ok <==> all_invertible(exponents@),
            r matches Ok(request) ==> exists|inverses: Seq<Scalar>|
                #![trigger are_inverses(exponents@, inverses)]
                are_inverses(exponents@, inverses) && phase3_matches(
                    request,
                    inverses,
                    hashed_idents@,
                    dh_output@,
                    hidden_tags@,
                    hidden_data@,
                ),
            r matches Err(e) ==> e matches ProtocolError::NonInvertibleExponent { index, exponent }
                && first_non_unit(exponents@, index as int) && exponent@
                == exponents[index as int]@,
    {
        phase3_request(exponents, hashed_idents, dh_output, hidden_tags, hidden_data)
    }
}

} // verus!
