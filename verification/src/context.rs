//! Winds, ready-hand declarations and the context a hand is interpreted in.

use crate::form::Form;
use crate::utils::same_text;
use vstd::prelude::*;

verus! {

/// A wind: the round wind of the table or the seat wind of a player.
#[derive(Debug, Clone, Copy, PartialEq, Eq, Structural)]
pub enum Direction {
    East,
    South,
    West,
    North,
}

/// A wind shown by its English name.
pub struct DirectionDisplayEn(pub Direction);

/// The text that was given for a wind and names none.
#[derive(Debug)]
pub struct UnknownDirection(pub String);

/// Which ready-hand declaration was made.
#[derive(Debug, Clone, Copy, PartialEq, Eq, Structural)]
pub enum Lizhi {
    /// No declaration.
    Undeclared,
    /// Ready hand.
    Lizhi,
    /// Ready hand, won within one turn.
    LizhiIppatsu,
    /// Ready hand declared on the first turn.
    DoubleLizhi,
    /// Ready hand declared on the first turn, won within one turn.
    DoubleLizhiIppatsu,
}

/// How the winning tile came.
#[derive(Debug, Clone, Copy)]
pub enum LastDraw {
    /// Drawn by the player.
    Zimo,
    /// Claimed from a discard.
    Ronghe,
}

/// The context in which the tiles are read.
#[derive(Debug)]
pub struct Context {
    pub lizhi: Lizhi,
    pub lucky_forms: Vec<Form>,
    pub place: Direction,
    pub player: Direction,
    pub player_name: String,
}

/// What a context holds, as plain values.
pub struct ContextView {
    pub lizhi: Lizhi,
    pub lucky_forms: Seq<Form>,
    pub place: Direction,
    pub player: Direction,
    pub player_name: Seq<char>,
}

impl Direction {
    /// The wind's name.
    pub open spec fn text(self) -> Seq<char> {
        match self {
            Direction::East => "東"@,
            Direction::South => "南"@,
            Direction::West => "西"@,
            Direction::North => "北"@,
        }
    }

    /// The wind's English name.
    pub open spec fn text_en(self) -> Seq<char> {
        match self {
            Direction::East => "East"@,
            Direction::South => "South"@,
            Direction::West => "West"@,
            Direction::North => "North"@,
        }
    }

    /// The wind that a text names, in either language.
    pub open spec fn spec_parse(s: Seq<char>) -> Option<Direction> {
        if s == "東"@ || s == "East"@ {
            Some(Direction::East)
        } else if s == "南"@ || s == "South"@ {
            Some(Direction::South)
        } else if s == "西"@ || s == "West"@ {
            Some(Direction::West)
        } else if s == "北"@ || s == "North"@ {
            Some(Direction::North)
        } else {
            None
        }
    }

    /// The wind, to be shown by its English name.
    pub fn display_en(self) -> (r: DirectionDisplayEn)
        ensures
            r.0 == self,
    {
        DirectionDisplayEn(self)
    }

    /// The wind's name.
    pub fn to_string(&self) -> (r: String)
        ensures
            r@ == self.text(),
    {
        match self {
            Direction::East => String::from_str("東"),
            Direction::South => String::from_str("南"),
            Direction::West => String::from_str("西"),
            Direction::North => String::from_str("北"),
        }
    }

    /// Reads a wind from its name in either language; the error carries the text.
    pub fn parse(from: &str) -> (r: Result<Direction, UnknownDirection>)
        ensures
            match Direction::spec_parse(from@) {
                Some(d) => r matches Ok(x) && x == d,
                None => r matches Err(e) && e.0@ == from@,
            },
    {
        if same_text(from, "東") || same_text(from, "East") {
            Ok(Direction::East)
        } else if same_text(from, "南") || same_text(from, "South") {
            Ok(Direction::South)
        } else if same_text(from, "西") || same_text(from, "West") {
            Ok(Direction::West)
        } else if same_text(from, "北") || same_text(from, "North") {
            Ok(Direction::North)
        } else {
            Err(UnknownDirection(String::from_str(from)))
        }
    }
}

impl DirectionDisplayEn {
    /// The wind's English name.
    pub fn to_string(&self) -> (r: String)
        ensures
            r@ == self.0.text_en(),
    {
        match self.0 {
            Direction::East => String::from_str("East"),
            Direction::South => String::from_str("South"),
            Direction::West => String::from_str("West"),
            Direction::North => String::from_str("North"),
        }
    }
}

impl Default for Direction {
    fn default() -> (r: Direction)
        ensures
            r == Direction::East,
    {
        Direction::East
    }
}

impl core::str::FromStr for Direction {
    type Err = UnknownDirection;

    fn from_str(from: &str) -> (r: Result<Direction, UnknownDirection>)
        ensures
            match Direction::spec_parse(from@) {
                Some(d) => r matches Ok(x) && x == d,
                None => r matches Err(e) && e.0@ == from@,
            },
    {
        Direction::parse(from)
    }
}

impl Default for Lizhi {
    fn default() -> (r: Lizhi)
        ensures
            r == Lizhi::Undeclared,
    {
        Lizhi::Undeclared
    }
}

impl Default for LastDraw {
    fn default() -> (r: LastDraw)
        ensures
            r is Zimo,
    {
        LastDraw::Zimo
    }
}

impl View for Context {
    type V = ContextView;

    open spec fn view(&self) -> ContextView {
        ContextView {
            lizhi: self.lizhi,
            lucky_forms: self.lucky_forms@,
            place: self.place,
            player: self.player,
            player_name: self.player_name@,
        }
    }
}

impl ContextView {
    /// Whether the player sits east, and so leads the round.
    pub open spec fn is_parent(self) -> bool {
        self.player == Direction::East
    }
}

impl Context {
    /// Whether the player sits east, and so leads the round.
    pub fn is_parent(&self) -> (r: bool)
        ensures
            r == self@.is_parent(),
    {
        self.player == Direction::East
    }
}

impl Default for Context {
    fn default() -> (r: Context)
        ensures
            r@ == (ContextView {
                lizhi: Lizhi::Undeclared,
                lucky_forms: Seq::empty(),
                place: Direction::East,
                player: Direction::East,
                player_name: Seq::empty(),
            }),
    {
        Context {
            lizhi: Lizhi::Undeclared,
            lucky_forms: Vec::new(),
            place: Direction::East,
            player: Direction::East,
            player_name: String::new(),
        }
    }
}

impl Clone for Context {
    fn clone(&self) -> (r: Context)
        ensures
            r@ == self@,
    {
        let lucky_forms = self.lucky_forms.clone();
        proof {
            assert(lucky_forms@ =~= self.lucky_forms@);
        }
        Context {
            lizhi: self.lizhi,
            lucky_forms,
            place: self.place,
            player: self.player,
            player_name: self.player_name.clone(),
        }
    }
}

} // verus!
