//! The unit catalogue: which pieces may stand on a square, their numeric
//! codes, and the statistics a freshly recruited piece starts with.

use vstd::prelude::*;
use vstd::std_specs::convert::FromSpecImpl;
use vstd::std_specs::convert::TryFromSpecImpl;

verus! {

/// What stands on a square.
#[derive(Copy, Clone, Debug, PartialEq, Eq, Structural)]
pub enum Unit {
    Empty,
    OrcCommander,
    OrcSoldier,
}

/// The content of one cell of a board.
#[derive(Copy, Clone, Debug, PartialEq, Eq, Structural)]
pub struct Square {
    pub unit: Unit,
    pub health_points: u64,
    pub captured: bool,
    pub move_credits: u64,
}

/// A faction leader, chosen when a game is set up.
#[derive(Copy, Clone, Debug, PartialEq, Eq, Structural)]
pub enum Commander {
    Orc,
}

/// The number under which a unit kind is known to the circuits.
pub open spec fn unit_code(unit: Unit) -> u64 {
    match unit {
        Unit::Empty => 0,
        Unit::OrcCommander => 1,
        Unit::OrcSoldier => 2,
    }
}

/// The unit kind that a code stands for, if any.
pub open spec fn unit_of_code(code: u64) -> Option<Unit> {
    if code == 0 {
        Some(Unit::Empty)
    } else if code == 1 {
        Some(Unit::OrcCommander)
    } else if code == 2 {
        Some(Unit::OrcSoldier)
    } else {
        None
    }
}

/// The square that holds nothing.
pub open spec fn empty_square() -> Square {
    Square { unit: Unit::Empty, health_points: 0, captured: false, move_credits: 0 }
}

/// The square on which a fresh unit of the given kind stands.
pub open spec fn starting_square(unit: Unit) -> Square {
    match unit {
        Unit::Empty => empty_square(),
        Unit::OrcCommander => Square {
            unit: Unit::OrcCommander,
            health_points: 58,
            captured: false,
            move_credits: 5,
        },
        Unit::OrcSoldier => Square {
            unit: Unit::OrcSoldier,
            health_points: 12,
            captured: false,
            move_credits: 5,
        },
    }
}

/// The unit kind that leads a faction.
pub open spec fn commander_unit(commander: Commander) -> Unit {
    match commander {
        Commander::Orc => Unit::OrcCommander,
    }
}

impl Unit {
    /// Whether this unit leads its side.
    pub fn is_commander(&self) -> (r: bool)
        ensures
            r == (*self == Unit::OrcCommander),
    {
        match self {
            Unit::OrcCommander => true,
            _ => false,
        }
    }

    /// A square holding a fresh unit of this kind: full health, not
    /// captured, and the kind's allowance of moves.
    pub fn default_square(&self) -> (r: Square)
        ensures
            r == starting_square(*self),
    {
        match self {
            Unit::Empty => Square {
                unit: Unit::Empty,
                health_points: 0,
                captured: false,
                move_credits: 0,
            },
            Unit::OrcCommander => Square {
                unit: Unit::OrcCommander,
                health_points: 58,
                captured: false,
                move_credits: 5,
            },
            Unit::OrcSoldier => Square {
                unit: Unit::OrcSoldier,
                health_points: 12,
                captured: false,
                move_credits: 5,
            },
        }
    }

    /// The unit's numeric code.
    pub fn code(&self) -> (r: u64)
        ensures
            r == unit_code(*self),
    {
        match self {
            Unit::Empty => 0,
            Unit::OrcCommander => 1,
            Unit::OrcSoldier => 2,
        }
    }

    /// The unit with the given code; `None` where no unit has it.
    pub fn from_code(code: u64) -> (r: Option<Unit>)
        ensures
            r == unit_of_code(code),
    {
        if code == 0 {
            Some(Unit::Empty)
        } else if code == 1 {
            Some(Unit::OrcCommander)
        } else if code == 2 {
            Some(Unit::OrcSoldier)
        } else {
            None
        }
    }
}

impl From<&Unit> for u64 {
    fn from(value: &Unit) -> (r: u64) {
        value.code()
    }
}

impl FromSpecImpl<&Unit> for u64 {
    open spec fn obeys_from_spec() -> bool {
        true
    }

    open spec fn from_spec(value: &Unit) -> u64 {
        unit_code(*value)
    }
}

impl TryFrom<u64> for Unit {
    type Error = String;

    /// The unit with the given code, or a message where no unit has it.
    fn try_from(value: u64) -> (r: Result<Unit, String>)
        ensures
            r is Ok <==> unit_of_code(value) is Some,
            r matches Ok(unit) ==> unit_of_code(value) == Some(unit),
            r matches Err(message) ==> message@ == "Invalid unit id."@,
    {
        match Unit::from_code(value) {
            Some(unit) => Ok(unit),
            None => Err("Invalid unit id.".to_string()),
        }
    }
}

impl TryFromSpecImpl<u64> for Unit {
    open spec fn obeys_try_from_spec() -> bool {
        false
    }

    open spec fn try_from_spec(value: u64) -> Result<Unit, String> {
        arbitrary()
    }
}

impl From<Commander> for Unit {
    fn from(value: Commander) -> (r: Unit) {
        match value {
            Commander::Orc => Unit::OrcCommander,
        }
    }
}

impl FromSpecImpl<Commander> for Unit {
    open spec fn obeys_from_spec() -> bool {
        true
    }

    open spec fn from_spec(value: Commander) -> Unit {
        commander_unit(value)
    }
}

/// Every unit is found again from its code, and a code that names a unit
/// is that unit's code.
pub proof fn lemma_unit_code_round_trip(unit: Unit, code: u64)
    ensures
        unit_of_code(unit_code(unit)) == Some(unit),
        unit_of_code(code) == Some(unit) ==> unit_code(unit) == code,
{
}

} // verus!
