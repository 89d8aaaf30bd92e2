//! The data structures used by the XML protocol, decoupled from any
//! transport.

use vstd::prelude::*;
use vstd::string::{StrSliceExecFns, StringExecFns};
use crate::error::SCError;
use crate::strings::str_eq;

verus! {

/// A message indicating that the client has joined a room.
#[derive(Debug, Clone, Eq, PartialEq)]
pub struct Joined {
    pub room_id: String,
}

/// A message indicating that the client has left a room.
#[derive(Debug, Clone, Eq, PartialEq)]
pub struct Left {
    pub room_id: String,
}

/// A polymorphic container for game data used by the protocol,
/// parameterized by the game's state, move and color types.
#[derive(Debug, Clone, Eq, PartialEq)]
pub enum Data<C, S, M, P> {
    WelcomeMessage { color: C },
    Memento { state: S },
    MoveData(M),
    MoveRequest,
    GameResultData(GameResult<P>),
}

/// A message in a room together with some data.
#[derive(Debug, Clone, Eq, PartialEq)]
pub struct Room<C, S, M, P> {
    pub room_id: String,
    pub data: Data<C, S, M, P>,
}

/// The final result of a game.
#[derive(Debug, Clone, Eq, PartialEq)]
pub struct GameResult<P> {
    pub definition: ScoreDefinition,
    pub scores: Vec<PlayerScore>,
    pub winners: Vec<P>,
}

/// The definition of a score.
#[derive(Debug, Clone, Eq, PartialEq)]
pub struct ScoreDefinition {
    pub fragments: Vec<ScoreFragment>,
}

/// A single score fragment.
#[derive(Debug, Clone, Eq, PartialEq)]
pub struct ScoreFragment {
    pub name: String,
    pub aggregation: ScoreAggregation,
    pub relevant_for_ranking: bool,
}

/// Determines how scores should be aggregated.
#[derive(Debug, Copy, Clone, Eq, PartialEq, Structural)]
pub enum ScoreAggregation {
    Sum,
    Average,
}

/// Determines the cause of a game score.
#[derive(Debug, Copy, Clone, Eq, PartialEq, Structural)]
pub enum ScoreCause {
    Regular,
    Left,
    RuleViolation,
    SoftTimeout,
    HardTimeout,
    Unknown,
}

/// The score of a game player.
#[derive(Debug, Clone, Eq, PartialEq)]
pub struct PlayerScore {
    pub cause: ScoreCause,
    pub reason: String,
}

impl ScoreAggregation {
    /// The protocol name of the aggregation.
    pub open spec fn spec_name(self) -> Seq<char> {
        match self {
            ScoreAggregation::Sum => "SUM"@,
            ScoreAggregation::Average => "AVERAGE"@,
        }
    }

    /// Converts the aggregation to its protocol name.
    pub fn name(self) -> (r: String)
        ensures
            r@ == self.spec_name(),
    {
        match self {
            ScoreAggregation::Sum => String::from_str("SUM"),
            ScoreAggregation::Average => String::from_str("AVERAGE"),
        }
    }

    /// Parses an aggregation from its protocol name.
    pub fn from_name(s: &str) -> (r: Result<ScoreAggregation, SCError>)
        ensures
            forall|t: ScoreAggregation| r == Ok::<ScoreAggregation, SCError>(t) <==> s@ == t.spec_name(),
    {
        proof {
            reveal_strlit("SUM");
            reveal_strlit("AVERAGE");
            assert("SUM"@.len() == 3 && "AVERAGE"@.len() == 7);
        }
        if str_eq(s, "SUM") {
            Ok(ScoreAggregation::Sum)
        } else if str_eq(s, "AVERAGE") {
            Ok(ScoreAggregation::Average)
        } else {
            Err(SCError::custom("unknown score aggregation"))
        }
    }
}

impl ScoreCause {
    /// The protocol name of the cause.
    pub open spec fn spec_name(self) -> Seq<char> {
        match self {
            ScoreCause::Regular => "REGULAR"@,
            ScoreCause::Left => "LEFT"@,
            ScoreCause::RuleViolation => "RULE_VIOLATION"@,
            ScoreCause::SoftTimeout => "SOFT_TIMEOUT"@,
            ScoreCause::HardTimeout => "HARD_TIMEOUT"@,
            ScoreCause::Unknown => "UNKNOWN"@,
        }
    }

    /// Converts the cause to its protocol name.
    pub fn name(self) -> (r: String)
        ensures
            r@ == self.spec_name(),
    {
        match self {
            ScoreCause::Regular => String::from_str("REGULAR"),
            ScoreCause::Left => String::from_str("LEFT"),
            ScoreCause::RuleViolation => String::from_str("RULE_VIOLATION"),
            ScoreCause::SoftTimeout => String::from_str("SOFT_TIMEOUT"),
            ScoreCause::HardTimeout => String::from_str("HARD_TIMEOUT"),
            ScoreCause::Unknown => String::from_str("UNKNOWN"),
        }
    }

    /// Parses a cause from its protocol name.
    pub fn from_name(s: &str) -> (r: Result<ScoreCause, SCError>)
        ensures
            forall|t: ScoreCause| r == Ok::<ScoreCause, SCError>(t) <==> s@ == t.spec_name(),
    {
        proof {
            reveal_strlit("REGULAR");
            reveal_strlit("LEFT");
            reveal_strlit("RULE_VIOLATION");
            reveal_strlit("SOFT_TIMEOUT");
            reveal_strlit("HARD_TIMEOUT");
            reveal_strlit("UNKNOWN");
            assert("REGULAR"@.len() == 7 && "LEFT"@.len() == 4 && "RULE_VIOLATION"@.len() == 14
                && "SOFT_TIMEOUT"@.len() == 12 && "HARD_TIMEOUT"@.len() == 12
                && "UNKNOWN"@.len() == 7);
            assert("REGULAR"@[0] == 'R' && "UNKNOWN"@[0] == 'U');
            assert("SOFT_TIMEOUT"@[0] == 'S' && "HARD_TIMEOUT"@[0] == 'H');
        }
        if str_eq(s, "REGULAR") {
            Ok(ScoreCause::Regular)
        } else if str_eq(s, "LEFT") {
            Ok(ScoreCause::Left)
        } else if str_eq(s, "RULE_VIOLATION") {
            Ok(ScoreCause::RuleViolation)
        } else if str_eq(s, "SOFT_TIMEOUT") {
            Ok(ScoreCause::SoftTimeout)
        } else if str_eq(s, "HARD_TIMEOUT") {
            Ok(ScoreCause::HardTimeout)
        } else if str_eq(s, "UNKNOWN") {
            Ok(ScoreCause::Unknown)
        } else {
            Err(SCError::custom("unknown score cause"))
        }
    }
}

impl Joined {
    /// Decodes the room-joined notice from its `roomId` attribute.
    pub fn from_node(node: &crate::xml_node::XmlNode) -> (r: Result<Joined, SCError>) {
        match node.attribute("roomId") {
            Ok(id) => Ok(Joined { room_id: id.to_owned() }),
            Err(e) => Err(e),
        }
    }
}

impl Left {
    /// Decodes the room-left notice from its `roomId` attribute.
    pub fn from_node(node: &crate::xml_node::XmlNode) -> (r: Result<Left, SCError>) {
        match node.attribute("roomId") {
            Ok(id) => Ok(Left { room_id: id.to_owned() }),
            Err(e) => Err(e),
        }
    }
}

impl ScoreFragment {
    /// Decodes one score fragment: its name, aggregation and ranking flag.
    pub fn from_node(node: &crate::xml_node::XmlNode) -> (r: Result<ScoreFragment, SCError>) {
        let name = match node.attribute("name") {
            Ok(s) => s.to_owned(),
            Err(e) => {
                return Err(e);
            },
        };
        let aggregation = match node.attribute("aggregation") {
            Ok(s) => match ScoreAggregation::from_name(s) {
                Ok(a) => a,
                Err(e) => {
                    return Err(e);
                },
            },
            Err(e) => {
                return Err(e);
            },
        };
        let ranking = match node.child_by_name("relevantForRanking") {
            Ok(child) => match crate::strings::parse_bool(child.data()) {
                Ok(b) => b,
                Err(e) => {
                    return Err(e);
                },
            },
            Err(e) => {
                return Err(e);
            },
        };
        Ok(ScoreFragment { name, aggregation, relevant_for_ranking: ranking })
    }
}

impl ScoreDefinition {
    /// Decodes the score definition from its `fragment` children.
    pub fn from_node(node: &crate::xml_node::XmlNode) -> (r: Result<ScoreDefinition, SCError>) {
        let children = node.childs_by_name("fragment");
        let mut fragments: Vec<ScoreFragment> = Vec::new();
        let mut i: usize = 0;
        while i < children.len()
            decreases children@.len() - i,
        {
            match ScoreFragment::from_node(children[i]) {
                Ok(f) => fragments.push(f),
                Err(e) => {
                    return Err(e);
                },
            }
            i += 1;
        }
        Ok(ScoreDefinition { fragments })
    }
}

impl PlayerScore {
    /// Decodes one player score: its cause and reason.
    pub fn from_node(node: &crate::xml_node::XmlNode) -> (r: Result<PlayerScore, SCError>) {
        let cause = match node.attribute("cause") {
            Ok(s) => match ScoreCause::from_name(s) {
                Ok(c) => c,
                Err(e) => {
                    return Err(e);
                },
            },
            Err(e) => {
                return Err(e);
            },
        };
        let reason = match node.attribute("reason") {
            Ok(s) => s.to_owned(),
            Err(e) => {
                return Err(e);
            },
        };
        Ok(PlayerScore { cause, reason })
    }
}

} // verus!
