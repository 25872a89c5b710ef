//! The requests that are handed to the constraint programs, field by field
//! as the programs name them.

use crate::bits::low_bits;
use crate::board::square_row;
use crate::board::CircuitState;
use crate::error::ProtocolError;
use crate::exponent::are_inverses;
use crate::exponent::all_invertible;
use crate::exponent::first_non_unit;
use crate::exponent::invert_exponents;
use crate::exponent::to_exponent_bits;
use crate::exponent::to_bits;
use crate::exponent::EXPONENT_BITS;
use crate::scalar::decimal_text;
use crate::scalar::Scalar;
use crate::transaction::action_of;
use crate::transaction::capture_flags;
use crate::transaction::capture_flags_of;
use crate::transaction::captures_in_range;
use crate::transaction::encode_turn;
use crate::transaction::padded_turn;
use crate::transaction::Transaction;
use crate::transaction::MAX_ACTION_COUNT;
use crate::unit::Square;
use vstd::prelude::*;

verus! {

/// The number of bits in which a hidden datum is handed to the third
/// program.
pub const DATA_BITS: usize = 64;

/// Two coordinates of a curve point.
pub type Pair = (Scalar, Scalar);

/// The three parts of a hidden datum.
pub type Triple = (Scalar, Scalar, Scalar);

/// What the hashing program reads.
#[derive(Clone, Debug, PartialEq, Eq)]
pub struct HashObject {
    pub to_hash: Vec<u64>,
}

/// What the first program reads: the responder's board, placeholders for
/// damage and captures, and the responder's exponents bit by bit.
#[derive(Clone, Debug, PartialEq, Eq)]
pub struct Phase1 {
    pub prev_state: Vec<[u64; 4]>,
    pub prev_misc_state: [u64; 3],
    pub degats: Vec<u64>,
    pub captures: Vec<u64>,
    pub phase1_exponents: Vec<Vec<u8>>,
}

/// What the second program reads: the public inputs of the step, the
/// initiator's board and turn, and both sides' blinding material.
#[derive(Debug)]
pub struct Phase2 {
    pub step_in: (String, String),
    pub prev_state: Vec<[u64; 4]>,
    pub prev_misc_state: [u64; 3],
    pub actions: Vec<[i64; 8]>,
    pub degats: Vec<u64>,
    pub captures: Vec<u64>,
    pub actions_captures: Vec<u64>,
    pub phase1_exponents: Vec<Vec<u8>>,
    pub phase2_exponent: Vec<u8>,
    pub phase1_received: Vec<(String, String)>,
}

/// What the third program reads: the identifiers of the first step, the
/// inverses of the responder's exponents bit by bit, and what the
/// initiator sent.
#[derive(Debug)]
pub struct Phase3 {
    pub hashed_idents: Vec<(String, String)>,
    pub inv_phase1_exponents: Vec<Vec<u8>>,
    pub phase2_dh_output: Vec<(String, String)>,
    pub phase2_hidden_tags: Vec<(String, String)>,
    pub phase2_hidden_data: Vec<(Vec<u8>, Vec<u8>, Vec<u8>)>,
}

/// `count` zeros.
pub open spec fn zeros_of(count: nat) -> Seq<u64> {
    Seq::new(count, |i: int| 0u64)
}

/// Whether `rows` holds the four numbers of each square, in board order.
pub open spec fn rows_match(rows: Seq<[u64; 4]>, squares: Seq<Square>) -> bool {
    &&& rows.len() == squares.len()
    &&& forall|i: int| 0 <= i < rows.len() ==> (#[trigger] rows[i])@ == square_row(squares[i])
}

/// Whether `misc` holds the three resources of a state.
pub open spec fn misc_matches(misc: [u64; 3], state: CircuitState) -> bool {
    misc@ == seq![state.gold_amount, state.captured_village_count, state.current_upkeep_costs]
}

/// Whether `bits` holds the lowest `width` bits of each scalar.
pub open spec fn bits_match(bits: Seq<Vec<u8>>, scalars: Seq<Scalar>, width: nat) -> bool {
    &&& bits.len() == scalars.len()
    &&& forall|i: int| 0 <= i < bits.len() ==> (#[trigger] bits[i])@ == low_bits(scalars[i]@, width)
}

/// Whether `bits` holds the lowest `width` bits of each of these numbers.
pub open spec fn bits_match_values(bits: Seq<Vec<u8>>, values: Seq<nat>, width: nat) -> bool {
    &&& bits.len() == values.len()
    &&& forall|i: int| 0 <= i < bits.len() ==> (#[trigger] bits[i])@ == low_bits(values[i], width)
}

/// Whether `texts` holds the decimal numerals of each pair.
pub open spec fn decimals_match(texts: Seq<(String, String)>, pairs: Seq<Pair>) -> bool {
    &&& texts.len() == pairs.len()
    &&& forall|i: int|
        0 <= i < texts.len() ==> {
            &&& (#[trigger] texts[i]).0@ == decimal_text(pairs[i].0@)
            &&& texts[i].1@ == decimal_text(pairs[i].1@)
        }
}

/// Whether `bits` holds the lowest 64 bits of each part of each datum.
pub open spec fn data_bits_match(bits: Seq<(Vec<u8>, Vec<u8>, Vec<u8>)>, data: Seq<Triple>) -> bool {
    &&& bits.len() == data.len()
    &&& forall|i: int|
        0 <= i < bits.len() ==> {
            &&& (#[trigger] bits[i]).0@ == low_bits(data[i].0@, DATA_BITS as nat)
            &&& bits[i].1@ == low_bits(data[i].1@, DATA_BITS as nat)
            &&& bits[i].2@ == low_bits(data[i].2@, DATA_BITS as nat)
        }
}

/// Whether a request of the first step is the one for this board, this
/// number of villages and these exponents.
pub open spec fn phase1_matches(
    request: Phase1,
    state: CircuitState,
    village_count: nat,
    exponents: Seq<Scalar>,
) -> bool {
    &&& rows_match(request.prev_state@, state.squares@)
    &&& misc_matches(request.prev_misc_state, state)
    &&& request.degats@ == zeros_of(state.squares@.len())
    &&& request.captures@ == zeros_of(village_count)
    &&& bits_match(request.phase1_exponents@, exponents, EXPONENT_BITS as nat)
}

/// Whether a request of the second step is the one for this digest and
/// rolling commitment, this board and turn, these exponents and this
/// material from the responder.
pub open spec fn phase2_matches(
    request: Phase2,
    digest: nat,
    rolling: nat,
    state: CircuitState,
    turn: Seq<Transaction>,
    village_count: nat,
    exponent: nat,
    own_exponents: Seq<Scalar>,
    received: Seq<Pair>,
) -> bool {
    &&& request.step_in.0@ == decimal_text(digest)
    &&& request.step_in.1@ == decimal_text(rolling)
    &&& rows_match(request.prev_state@, state.squares@)
    &&& misc_matches(request.prev_misc_state, state)
    &&& request.actions.len() == MAX_ACTION_COUNT
    &&& forall|i: int|
        0 <= i < MAX_ACTION_COUNT ==> (#[trigger] request.actions[i])@ == action_of(
            padded_turn(turn)[i],
        )
    &&& request.degats@ == zeros_of(state.squares@.len())
    &&& request.captures@ == capture_flags_of(turn, village_count)
    &&& request.actions_captures@ == zeros_of(village_count)
    &&& bits_match(request.phase1_exponents@, own_exponents, EXPONENT_BITS as nat)
    &&& request.phase2_exponent@ == low_bits(exponent, EXPONENT_BITS as nat)
    &&& decimals_match(request.phase1_received@, received)
}

/// Whether a request of the third step is the one for these inverses and
/// this material of the two earlier steps.
pub open spec fn phase3_matches(
    request: Phase3,
    inverses: Seq<Scalar>,
    hashed_idents: Seq<Pair>,
    dh_output: Seq<Pair>,
    hidden_tags: Seq<Pair>,
    hidden_data: Seq<Triple>,
) -> bool {
    &&& decimals_match(request.hashed_idents@, hashed_idents)
    &&& bits_match(request.inv_phase1_exponents@, inverses, EXPONENT_BITS as nat)
    &&& decimals_match(request.phase2_dh_output@, dh_output)
    &&& decimals_match(request.phase2_hidden_tags@, hidden_tags)
    &&& data_bits_match(request.phase2_hidden_data@, hidden_data)
}

/// `count` zeros.
pub fn zeros(count: usize) -> (r: Vec<u64>)
    ensures
        r@ == zeros_of(count as nat),
{
    let mut out: Vec<u64> = Vec::new();
    while out.len() < count
        invariant
            out.len() <= count,
            forall|i: int| 0 <= i < out.len() ==> out[i] == 0,
        decreases count - out.len(),
    {
        out.push(0);
    }
    proof {
        assert(out@ =~= zeros_of(count as nat));
    }
    out
}

/// The decimal numerals of each pair.
pub fn decimal_pairs(pairs: &[Pair]) -> (r: Vec<(String, String)>)
    ensures
        decimals_match(r@, pairs@),
{
    let mut out: Vec<(String, String)> = Vec::new();
    let mut k: usize = 0;
    while k < pairs.len()
        invariant
            k <= pairs.len(),
            decimals_match(out@, pairs@.take(k as int)),
        decreases pairs.len() - k,
    {
        out.push((pairs[k].0.to_decimal(), pairs[k].1.to_decimal()));
        k += 1;
    }
    proof {
        assert(pairs@.take(pairs.len() as int) =~= pairs@);
    }
    out
}

/// The lowest 64 bits of each part of each datum.
pub fn data_bits(data: &[Triple]) -> (r: Vec<(Vec<u8>, Vec<u8>, Vec<u8>)>)
    ensures
        data_bits_match(r@, data@),
{
    let mut out: Vec<(Vec<u8>, Vec<u8>, Vec<u8>)> = Vec::new();
    let mut k: usize = 0;
    while k < data.len()
        invariant
            k <= data.len(),
            data_bits_match(out@, data@.take(k as int)),
        decreases data.len() - k,
    {
        out.push((data[k].0.bits(DATA_BITS), data[k].1.bits(DATA_BITS), data[k].2.bits(DATA_BITS)));
        k += 1;
    }
    proof {
        assert(data@.take(data.len() as int) =~= data@);
    }
    out
}

/// The request of the state commitment.
pub fn hash_request(state: &CircuitState) -> (r: HashObject)
    ensures
        r.to_hash@ == state.preimage(),
{
    HashObject { to_hash: state.hash_input() }
}

/// The request of the first step for a board and exponents already drawn.
pub fn phase1_request(state: &CircuitState, village_count: usize, exponents: &[Scalar]) -> (r:
    Phase1)
    ensures
        phase1_matches(r, *state, village_count as nat, exponents@),
{
    Phase1 {
        prev_state: state.square_rows(),
        prev_misc_state: state.misc_values(),
        degats: zeros(state.squares.len()),
        captures: zeros(village_count),
        phase1_exponents: to_exponent_bits(exponents),
    }
}

/// The request of the second step. A turn of more than `MAX_ACTION_COUNT`
/// actions is refused, whatever it holds; nothing else is. The villages
/// that a turn of no more actions captures must exist.
pub fn phase2_request(
    digest: &Scalar,
    rolling: &Scalar,
    state: &CircuitState,
    turn: &[Transaction],
    village_count: usize,
    exponent: &Scalar,
    own_exponents: &[Scalar],
    received: &[Pair],
) -> (r: Result<Phase2, ProtocolError>)
    requires
        turn.len() <= MAX_ACTION_COUNT ==> captures_in_range(turn@, village_count as nat),
    ensures
        r is Ok <==> turn.len() <= MAX_ACTION_COUNT,
        r matches Ok(request) ==> phase2_matches(
            request,
            digest@,
            rolling@,
            *state,
            turn@,
            village_count as nat,
            exponent@,
            own_exponents@,
            received@,
        ),
        r matches Err(e) ==> e == (ProtocolError::TooManyActions { count: turn.len() }),
{
    let actions = match encode_turn(turn) {
        Ok(actions) => actions,
        Err(e) => {
            return Err(e);
        },
    };
    Ok(
        Phase2 {
            step_in: (digest.to_decimal(), rolling.to_decimal()),
            prev_state: state.square_rows(),
            prev_misc_state: state.misc_values(),
            actions,
            degats: zeros(state.squares.len()),
            captures: capture_flags(turn, village_count),
            actions_captures: zeros(village_count),
            phase1_exponents: to_exponent_bits(own_exponents),
            phase2_exponent: to_bits(exponent),
            phase1_received: decimal_pairs(received),
        },
    )
}

/// The request of the third step. The responder's exponents are inverted
/// modulo the group order first; one without an inverse is a failure that
/// names it, and no request is made.
pub fn phase3_request(
    exponents: &[Scalar],
    hashed_idents: &[Pair],
    dh_output: &[Pair],
    hidden_tags: &[Pair],
    hidden_data: &[Triple],
) -> (r: Result<Phase3, ProtocolError>)
    ensures
        r is Ok <==> all_invertible(exponents@),
        r matches Ok(request) ==> exists|inverses: Seq<Scalar>|
            #![trigger are_inverses(exponents@, inverses)]
            are_inverses(exponents@, inverses) && phase3_matches(
                request,
                inverses,
                hashed_idents@,
                dh_output@,
                hidden_tags@,
                hidden_data@,
            ),
        r matches Err(e) ==> e matches ProtocolError::NonInvertibleExponent { index, exponent }
            && first_non_unit(exponents@, index as int) && exponent@ == exponents[index as int]@,
{
    let inverses = match invert_exponents(exponents) {
        Ok(inverses) => inverses,
        Err(e) => {
            return Err(e);
        },
    };
    let request = Phase3 {
        hashed_idents: decimal_pairs(hashed_idents),
        inv_phase1_exponents: to_exponent_bits(inverses.as_slice()),
        phase2_dh_output: decimal_pairs(dh_output),
        phase2_hidden_tags: decimal_pairs(hidden_tags),
        phase2_hidden_data: data_bits(hidden_data),
    };
    proof {
        assert(are_inverses(exponents@, inverses@) && phase3_matches(
            request,
            inverses@,
            hashed_idents@,
            dh_output@,
            hidden_tags@,
            hidden_data@,
        ));
    }
    Ok(request)
}

} // verus!
