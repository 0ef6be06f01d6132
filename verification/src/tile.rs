//! Tiles: suits, ranks and honors, with their classification predicates.

use crate::context::{Context, Direction};
use crate::utils::{chars_of, digit_str, digit_text};
use core::cmp::Ordering;
use vstd::prelude::*;

verus! {

/// An error raised when a tile is built.
#[derive(Debug, Copy, Clone, PartialEq, Eq, Structural)]
pub enum Error {
    /// The rank of a suited tile is outside 1..=9.
    InvalidOrder,
    /// An honor tile was asked to carry the red flag.
    InvalidRed,
}

/// The suit of a tile.
#[derive(Debug, Clone, Copy, PartialEq, Eq, Hash, Structural)]
pub enum TileKind {
    /// Bamboo.
    Suozi,
    /// Characters.
    Wanzi,
    /// Circles.
    Tongzi,
    /// Honors.
    Zipai,
}

/// The seven honors.
#[derive(Debug, Copy, Clone, PartialEq, Eq, PartialOrd, Ord, Hash, Structural)]
pub enum Zipai {
    East,
    South,
    West,
    North,
    /// White dragon.
    Bai,
    /// Green dragon.
    Fa,
    /// Red dragon.
    Zhong,
}

/// The rank of a suited tile, with its red flag.
///
/// Equality and order look at the rank alone.
#[derive(Debug, Copy, Clone)]
pub struct Order {
    pub(crate) order: u8,
    pub(crate) is_red: bool,
}

/// A tile.
///
/// Equality and order ignore the red flag: suits come in the order bamboo,
/// characters, circles, honors, and within a suit the lower rank comes first.
#[derive(Debug, Copy, Clone)]
pub enum Tile {
    /// Bamboo.
    Suozi(Order),
    /// Characters.
    Wanzi(Order),
    /// Circles.
    Tongzi(Order),
    /// Honors.
    Zipai(Zipai),
}

/// An error raised when a tile is read from text.
#[derive(Debug, Copy, Clone, PartialEq, Eq, Structural)]
pub enum ParseError {
    /// The text has the wrong number of characters.
    InvalidStringLen,
    /// The suit letter is unknown.
    InvalidChar(char),
    /// The tile could not be built.
    TileError(Error),
}

impl TileKind {
    /// The suit's name.
    pub open spec fn text(self) -> Seq<char> {
        match self {
            TileKind::Suozi => "索子"@,
            TileKind::Wanzi => "萬子"@,
            TileKind::Tongzi => "筒子"@,
            TileKind::Zipai => "字牌"@,
        }
    }

    /// The suit's name.
    pub fn to_string(&self) -> (r: String)
        ensures
            r@ == self.text(),
    {
        match self {
            TileKind::Suozi => String::from_str("索子"),
            TileKind::Wanzi => String::from_str("萬子"),
            TileKind::Tongzi => String::from_str("筒子"),
            TileKind::Zipai => String::from_str("字牌"),
        }
    }
}

impl Zipai {
    /// The place of the honor among the seven, from 0.
    pub open spec fn index(self) -> int {
        match self {
            Zipai::East => 0,
            Zipai::South => 1,
            Zipai::West => 2,
            Zipai::North => 3,
            Zipai::Bai => 4,
            Zipai::Fa => 5,
            Zipai::Zhong => 6,
        }
    }

    /// The honor's name.
    pub open spec fn text(self) -> Seq<char> {
        match self {
            Zipai::East => "東"@,
            Zipai::South => "南"@,
            Zipai::West => "西"@,
            Zipai::North => "北"@,
            Zipai::Bai => "白"@,
            Zipai::Fa => "發"@,
            Zipai::Zhong => "中"@,
        }
    }

    /// The honor that a character names.
    pub open spec fn of_name(c: char) -> Option<Zipai> {
        if c == '東' {
            Some(Zipai::East)
        } else if c == '南' {
            Some(Zipai::South)
        } else if c == '西' {
            Some(Zipai::West)
        } else if c == '北' {
            Some(Zipai::North)
        } else if c == '白' {
            Some(Zipai::Bai)
        } else if c == '發' {
            Some(Zipai::Fa)
        } else if c == '中' {
            Some(Zipai::Zhong)
        } else {
            None
        }
    }

    /// The honor that a digit from 1 to 7 numbers.
    pub open spec fn of_digit(c: char) -> Option<Zipai> {
        if c == '1' {
            Some(Zipai::East)
        } else if c == '2' {
            Some(Zipai::South)
        } else if c == '3' {
            Some(Zipai::West)
        } else if c == '4' {
            Some(Zipai::North)
        } else if c == '5' {
            Some(Zipai::Bai)
        } else if c == '6' {
            Some(Zipai::Fa)
        } else if c == '7' {
            Some(Zipai::Zhong)
        } else {
            None
        }
    }

    /// Whether the honor is the wind `d`.
    pub open spec fn is_direction(self, d: Direction) -> bool {
        match (self, d) {
            (Zipai::East, Direction::East) => true,
            (Zipai::South, Direction::South) => true,
            (Zipai::West, Direction::West) => true,
            (Zipai::North, Direction::North) => true,
            _ => false,
        }
    }

    /// The honor's name.
    pub fn as_str(self) -> (r: &'static str)
        ensures
            r@ == self.text(),
    {
        match self {
            Zipai::East => "東",
            Zipai::South => "南",
            Zipai::West => "西",
            Zipai::North => "北",
            Zipai::Bai => "白",
            Zipai::Fa => "發",
            Zipai::Zhong => "中",
        }
    }

    /// The honor's name.
    pub fn to_string(&self) -> (r: String)
        ensures
            r@ == self.text(),
    {
        String::from_str(self.as_str())
    }
}

impl PartialEq<Direction> for Zipai {
    fn eq(&self, other: &Direction) -> (r: bool) {
        match (self, other) {
            (Zipai::East, Direction::East) => true,
            (Zipai::South, Direction::South) => true,
            (Zipai::West, Direction::West) => true,
            (Zipai::North, Direction::North) => true,
            _ => false,
        }
    }
}

impl vstd::std_specs::cmp::PartialEqSpecImpl<Direction> for Zipai {
    open spec fn obeys_eq_spec() -> bool {
        true
    }

    open spec fn eq_spec(&self, other: &Direction) -> bool {
        self.is_direction(*other)
    }
}

impl Order {
    #[verifier::type_invariant]
    pub open(crate) spec fn in_range(self) -> bool {
        1 <= self.order <= 9
    }

    /// The rank, 1 to 9.
    pub open(crate) spec fn rank(self) -> int {
        self.order as int
    }

    /// Whether the red flag is set.
    pub open(crate) spec fn red(self) -> bool {
        self.is_red
    }

    /// The rank `rank` with the red flag `red`.
    pub open(crate) spec fn make(rank: int, red: bool) -> Order {
        Order { order: rank as u8, is_red: red }
    }

    /// The rank after this one, if there is one; never red.
    pub open spec fn spec_next(self) -> Option<Order> {
        if self.rank() < 9 {
            Some(Order::make(self.rank() + 1, false))
        } else {
            None
        }
    }

    /// The rank before this one, if there is one; never red.
    pub open spec fn spec_prev(self) -> Option<Order> {
        if self.rank() > 1 {
            Some(Order::make(self.rank() - 1, false))
        } else {
            None
        }
    }

    /// The rank after this one, 9 followed by 1; never red.
    pub open spec fn spec_wrapping_next(self) -> Order {
        if self.rank() < 9 {
            Order::make(self.rank() + 1, false)
        } else {
            Order::make(1, false)
        }
    }

    /// The rank before this one, 1 preceded by 9; never red.
    pub open spec fn spec_wrapping_prev(self) -> Order {
        if self.rank() > 1 {
            Order::make(self.rank() - 1, false)
        } else {
            Order::make(9, false)
        }
    }

    /// Whether the rank is one of 2 to 8.
    pub open spec fn spec_is_zhongzhang(self) -> bool {
        self.rank() != 1 && self.rank() != 9
    }

    /// Whether the rank is one that an all-green hand may hold.
    pub open spec fn spec_is_green_order(self) -> bool {
        self.rank() == 2 || self.rank() == 3 || self.rank() == 4 || self.rank() == 6
            || self.rank() == 8
    }

    /// Builds a rank without the red flag; fails outside 1..=9.
    pub fn new(order: u8) -> (r: Result<Order, Error>)
        ensures
            1 <= order <= 9 ==> r == Ok::<Order, Error>(Order::make(order as int, false)),
            !(1 <= order <= 9) ==> r == Err::<Order, Error>(Error::InvalidOrder),
    {
        if order < 1 || 9 < order {
            return Err(Error::InvalidOrder);
        }
        Ok(Order { order, is_red: false })
    }

    /// Builds a rank that is known to lie in 1..=9, without the red flag.
    pub fn of_rank(order: u8) -> (r: Order)
        requires
            1 <= order <= 9,
        ensures
            r == Order::make(order as int, false),
    {
        Order { order, is_red: false }
    }

    /// The same rank with the red flag as given.
    pub fn with_red(self, is_red: bool) -> (r: Order)
        ensures
            r == Order::make(self.rank(), is_red),
    {
        proof {
            use_type_invariant(self);
        }
        Order { order: self.order, is_red }
    }

    /// The rank as a number.
    pub fn number(self) -> (r: u8)
        ensures
            r == self.rank(),
            1 <= r <= 9,
    {
        proof {
            use_type_invariant(self);
        }
        self.order
    }

    /// The rank after this one, 9 followed by 1.
    pub fn wrapping_next(self) -> (r: Order)
        ensures
            r == self.spec_wrapping_next(),
    {
        proof {
            use_type_invariant(self);
        }
        if self.order < 9 {
            Order { order: self.order + 1, is_red: false }
        } else {
            Order { order: 1, is_red: false }
        }
    }

    /// The rank before this one, 1 preceded by 9.
    pub fn wrapping_prev(self) -> (r: Order)
        ensures
            r == self.spec_wrapping_prev(),
    {
        proof {
            use_type_invariant(self);
        }
        if self.order > 1 {
            Order { order: self.order - 1, is_red: false }
        } else {
            Order { order: 9, is_red: false }
        }
    }

    /// The rank after this one; none after 9.
    pub fn next(self) -> (r: Option<Order>)
        ensures
            r == self.spec_next(),
    {
        proof {
            use_type_invariant(self);
        }
        if self.order < 9 {
            Some(Order { order: self.order + 1, is_red: false })
        } else {
            None
        }
    }

    /// The rank before this one; none before 1.
    pub fn prev(self) -> (r: Option<Order>)
        ensures
            r == self.spec_prev(),
    {
        proof {
            use_type_invariant(self);
        }
        if self.order > 1 {
            Some(Order { order: self.order - 1, is_red: false })
        } else {
            None
        }
    }

    /// Whether the red flag is set.
    pub fn is_red(self) -> (r: bool)
        ensures
            r == self.red(),
    {
        self.is_red
    }

    /// Whether the rank is one of 2 to 8.
    pub fn is_zhongzhang(self) -> (r: bool)
        ensures
            r == self.spec_is_zhongzhang(),
    {
        self.order != 1 && self.order != 9
    }

    /// Whether the rank is 1 or 9.
    pub fn is_yaojiu(self) -> (r: bool)
        ensures
            r == !self.spec_is_zhongzhang(),
    {
        !self.is_zhongzhang()
    }

    /// Whether the rank is one that an all-green hand may hold: 2, 3, 4, 6 or 8.
    pub fn is_green_order(self) -> (r: bool)
        ensures
            r == self.spec_is_green_order(),
    {
        self.order == 2 || self.order == 3 || self.order == 4 || self.order == 6 || self.order
            == 8
    }

    /// The rank as text.
    pub fn to_string(&self) -> (r: String)
        ensures
            r@ == digit_text(self.rank()),
    {
        proof {
            use_type_invariant(self);
        }
        String::from_str(digit_str(self.order as u32))
    }
}

impl PartialEq for Order {
    fn eq(&self, other: &Order) -> (r: bool) {
        self.order == other.order
    }
}

impl vstd::std_specs::cmp::PartialEqSpecImpl for Order {
    open spec fn obeys_eq_spec() -> bool {
        true
    }

    open spec fn eq_spec(&self, other: &Order) -> bool {
        self.rank() == other.rank()
    }
}

impl Eq for Order {

}

impl PartialOrd for Order {
    fn partial_cmp(&self, other: &Order) -> (r: Option<Ordering>) {
        if self.order < other.order {
            Some(Ordering::Less)
        } else if self.order > other.order {
            Some(Ordering::Greater)
        } else {
            Some(Ordering::Equal)
        }
    }
}

impl vstd::std_specs::cmp::PartialOrdSpecImpl for Order {
    open spec fn obeys_partial_cmp_spec() -> bool {
        true
    }

    open spec fn partial_cmp_spec(&self, other: &Order) -> Option<Ordering> {
        if self.rank() < other.rank() {
            Some(Ordering::Less)
        } else if self.rank() > other.rank() {
            Some(Ordering::Greater)
        } else {
            Some(Ordering::Equal)
        }
    }
}

impl Tile {
    /// The number by which tiles are compared: the red flag has no part in it.
    pub open spec fn key(self) -> int {
        match self {
            Tile::Suozi(o) => o.rank(),
            Tile::Wanzi(o) => 256 + o.rank(),
            Tile::Tongzi(o) => 512 + o.rank(),
            Tile::Zipai(z) => 768 + z.index(),
        }
    }

    /// Whether a suited tile has a rank from 1 to 9; every honor is valid.
    pub open spec fn valid(self) -> bool {
        match self {
            Tile::Zipai(_) => true,
            Tile::Suozi(o) | Tile::Wanzi(o) | Tile::Tongzi(o) => 1 <= o.rank() <= 9,
        }
    }

    /// The rank with its flag; none for an honor.
    pub open spec fn spec_order(self) -> Option<Order> {
        match self {
            Tile::Zipai(_) => None,
            Tile::Suozi(o) | Tile::Wanzi(o) | Tile::Tongzi(o) => Some(o),
        }
    }

    /// The suit.
    pub open spec fn spec_kind(self) -> TileKind {
        match self {
            Tile::Wanzi(_) => TileKind::Wanzi,
            Tile::Suozi(_) => TileKind::Suozi,
            Tile::Tongzi(_) => TileKind::Tongzi,
            Tile::Zipai(_) => TileKind::Zipai,
        }
    }

    /// The same suit with another rank.
    pub open spec fn with_order(self, o: Order) -> Tile {
        match self {
            Tile::Zipai(z) => Tile::Zipai(z),
            Tile::Suozi(_) => Tile::Suozi(o),
            Tile::Wanzi(_) => Tile::Wanzi(o),
            Tile::Tongzi(_) => Tile::Tongzi(o),
        }
    }

    /// The next tile of the suit; none after a 9 and none for an honor.
    pub open spec fn spec_next(self) -> Option<Tile> {
        match self.spec_order() {
            None => None,
            Some(o) => match o.spec_next() {
                None => None,
                Some(n) => Some(self.with_order(n)),
            },
        }
    }

    /// The previous tile of the suit; none before a 1 and none for an honor.
    pub open spec fn spec_prev(self) -> Option<Tile> {
        match self.spec_order() {
            None => None,
            Some(o) => match o.spec_prev() {
                None => None,
                Some(n) => Some(self.with_order(n)),
            },
        }
    }

    /// The tile that follows in the cycle of its suit, of the winds or of the dragons.
    pub open spec fn spec_wrapping_next(self) -> Tile {
        match self {
            Tile::Zipai(Zipai::East) => Tile::Zipai(Zipai::South),
            Tile::Zipai(Zipai::South) => Tile::Zipai(Zipai::West),
            Tile::Zipai(Zipai::West) => Tile::Zipai(Zipai::North),
            Tile::Zipai(Zipai::North) => Tile::Zipai(Zipai::East),
            Tile::Zipai(Zipai::Bai) => Tile::Zipai(Zipai::Fa),
            Tile::Zipai(Zipai::Fa) => Tile::Zipai(Zipai::Zhong),
            Tile::Zipai(Zipai::Zhong) => Tile::Zipai(Zipai::Bai),
            Tile::Suozi(o) => Tile::Suozi(o.spec_wrapping_next()),
            Tile::Wanzi(o) => Tile::Wanzi(o.spec_wrapping_next()),
            Tile::Tongzi(o) => Tile::Tongzi(o.spec_wrapping_next()),
        }
    }

    /// The tile that precedes in the cycle of its suit, of the winds or of the dragons.
    pub open spec fn spec_wrapping_prev(self) -> Tile {
        match self {
            Tile::Zipai(Zipai::East) => Tile::Zipai(Zipai::North),
            Tile::Zipai(Zipai::South) => Tile::Zipai(Zipai::East),
            Tile::Zipai(Zipai::West) => Tile::Zipai(Zipai::South),
            Tile::Zipai(Zipai::North) => Tile::Zipai(Zipai::West),
            Tile::Zipai(Zipai::Bai) => Tile::Zipai(Zipai::Zhong),
            Tile::Zipai(Zipai::Fa) => Tile::Zipai(Zipai::Bai),
            Tile::Zipai(Zipai::Zhong) => Tile::Zipai(Zipai::Fa),
            Tile::Suozi(o) => Tile::Suozi(o.spec_wrapping_prev()),
            Tile::Wanzi(o) => Tile::Wanzi(o.spec_wrapping_prev()),
            Tile::Tongzi(o) => Tile::Tongzi(o.spec_wrapping_prev()),
        }
    }

    /// Whether the tile carries the red flag.
    pub open spec fn red(self) -> bool {
        match self.spec_order() {
            None => false,
            Some(o) => o.red(),
        }
    }

    /// Whether the tile is a suited tile of rank 2 to 8.
    pub open spec fn spec_is_zhongzhang(self) -> bool {
        match self.spec_order() {
            None => false,
            Some(o) => o.spec_is_zhongzhang(),
        }
    }

    /// Whether the tile is a terminal or an honor.
    pub open spec fn spec_is_yaojiu(self) -> bool {
        match self.spec_order() {
            None => true,
            Some(o) => !o.spec_is_zhongzhang(),
        }
    }

    /// Whether the tile is a wind.
    pub open spec fn spec_is_feng(self) -> bool {
        self matches Tile::Zipai(z) && z.index() < 4
    }

    /// Whether the tile is a dragon.
    pub open spec fn spec_is_sanyuan(self) -> bool {
        self matches Tile::Zipai(z) && z.index() >= 4
    }

    /// Whether an all-green hand may hold the tile.
    pub open spec fn spec_is_green(self) -> bool {
        match self {
            Tile::Zipai(Zipai::Fa) => true,
            Tile::Suozi(o) => o.spec_is_green_order(),
            _ => false,
        }
    }

    /// How many times over the tile is a value tile: once for the round
    /// wind, once for the seat wind, once for being a dragon.
    pub open spec fn spec_num_fan(self, place: Direction, player: Direction) -> int {
        match self {
            Tile::Zipai(z) => (if z.is_direction(place) {
                1int
            } else {
                0int
            }) + (if z.is_direction(player) {
                1int
            } else {
                0int
            }) + (if self.spec_is_sanyuan() {
                1int
            } else {
                0int
            }),
            _ => 0,
        }
    }

    /// The letter that stands for the suit, upper case for a red tile.
    pub open spec fn suit_text(self) -> Seq<char> {
        match self {
            Tile::Suozi(o) => if o.red() {
                "S"@
            } else {
                "s"@
            },
            Tile::Wanzi(o) => if o.red() {
                "M"@
            } else {
                "m"@
            },
            Tile::Tongzi(o) => if o.red() {
                "P"@
            } else {
                "p"@
            },
            Tile::Zipai(_) => Seq::empty(),
        }
    }

    /// The tile as text: rank and suit letter, or the honor's name.
    pub open spec fn text(self) -> Seq<char> {
        match self {
            Tile::Zipai(z) => z.text(),
            Tile::Suozi(o) | Tile::Wanzi(o) | Tile::Tongzi(o) => digit_text(o.rank())
                + self.suit_text(),
        }
    }

    /// The number by which tiles are compared.
    pub fn index(self) -> (r: u16)
        ensures
            r == self.key(),
            self.valid(),
    {
        match self {
            Tile::Suozi(o) => {
                let n: u8 = o.number();
                n as u16
            },
            Tile::Wanzi(o) => {
                let n: u8 = o.number();
                256 + n as u16
            },
            Tile::Tongzi(o) => {
                let n: u8 = o.number();
                512 + n as u16
            },
            Tile::Zipai(z) => match z {
                Zipai::East => 768,
                Zipai::South => 769,
                Zipai::West => 770,
                Zipai::North => 771,
                Zipai::Bai => 772,
                Zipai::Fa => 773,
                Zipai::Zhong => 774,
            },
        }
    }

    /// The next tile of the suit; none after a 9 and none for an honor.
    pub fn next(self) -> (r: Option<Tile>)
        ensures
            r == self.spec_next(),
    {
        match self {
            Tile::Zipai(_) => None,
            Tile::Suozi(o) => match o.next() {
                Some(n) => Some(Tile::Suozi(n)),
                None => None,
            },
            Tile::Wanzi(o) => match o.next() {
                Some(n) => Some(Tile::Wanzi(n)),
                None => None,
            },
            Tile::Tongzi(o) => match o.next() {
                Some(n) => Some(Tile::Tongzi(n)),
                None => None,
            },
        }
    }

    /// The previous tile of the suit; none before a 1 and none for an honor.
    pub fn prev(self) -> (r: Option<Tile>)
        ensures
            r == self.spec_prev(),
    {
        match self {
            Tile::Zipai(_) => None,
            Tile::Suozi(o) => match o.prev() {
                Some(n) => Some(Tile::Suozi(n)),
                None => None,
            },
            Tile::Wanzi(o) => match o.prev() {
                Some(n) => Some(Tile::Wanzi(n)),
                None => None,
            },
            Tile::Tongzi(o) => match o.prev() {
                Some(n) => Some(Tile::Tongzi(n)),
                None => None,
            },
        }
    }

    /// The tile that follows in its cycle: 9 is followed by 1, north by
    /// east, the red dragon by the white. The result is never red.
    pub fn wrapping_next(self) -> (r: Tile)
        ensures
            r == self.spec_wrapping_next(),
    {
        match self {
            Tile::Zipai(Zipai::East) => Tile::Zipai(Zipai::South),
            Tile::Zipai(Zipai::South) => Tile::Zipai(Zipai::West),
            Tile::Zipai(Zipai::West) => Tile::Zipai(Zipai::North),
            Tile::Zipai(Zipai::North) => Tile::Zipai(Zipai::East),
            Tile::Zipai(Zipai::Bai) => Tile::Zipai(Zipai::Fa),
            Tile::Zipai(Zipai::Fa) => Tile::Zipai(Zipai::Zhong),
            Tile::Zipai(Zipai::Zhong) => Tile::Zipai(Zipai::Bai),
            Tile::Suozi(o) => Tile::Suozi(o.wrapping_next()),
            Tile::Wanzi(o) => Tile::Wanzi(o.wrapping_next()),
            Tile::Tongzi(o) => Tile::Tongzi(o.wrapping_next()),
        }
    }

    /// The tile that precedes in its cycle. The result is never red.
    pub fn wrapping_prev(self) -> (r: Tile)
        ensures
            r == self.spec_wrapping_prev(),
    {
        match self {
            Tile::Zipai(Zipai::East) => Tile::Zipai(Zipai::North),
            Tile::Zipai(Zipai::South) => Tile::Zipai(Zipai::East),
            Tile::Zipai(Zipai::West) => Tile::Zipai(Zipai::South),
            Tile::Zipai(Zipai::North) => Tile::Zipai(Zipai::West),
            Tile::Zipai(Zipai::Bai) => Tile::Zipai(Zipai::Zhong),
            Tile::Zipai(Zipai::Fa) => Tile::Zipai(Zipai::Bai),
            Tile::Zipai(Zipai::Zhong) => Tile::Zipai(Zipai::Fa),
            Tile::Suozi(o) => Tile::Suozi(o.wrapping_prev()),
            Tile::Wanzi(o) => Tile::Wanzi(o.wrapping_prev()),
            Tile::Tongzi(o) => Tile::Tongzi(o.wrapping_prev()),
        }
    }

    /// The rank with its flag; none for an honor.
    pub fn order(self) -> (r: Option<Order>)
        ensures
            r == self.spec_order(),
    {
        match self {
            Tile::Zipai(_) => None,
            Tile::Suozi(o) | Tile::Wanzi(o) | Tile::Tongzi(o) => Some(o),
        }
    }

    /// The same tile with the red flag as given; an honor cannot carry it.
    pub fn with_red(self, is_red: bool) -> (r: Result<Tile, Error>)
        ensures
            match self.spec_order() {
                None => r == Err::<Tile, Error>(Error::InvalidRed),
                Some(o) => r == Ok::<Tile, Error>(
                    self.with_order(Order::make(o.rank(), is_red)),
                ),
            },
    {
        match self {
            Tile::Zipai(_) => Err(Error::InvalidRed),
            Tile::Suozi(o) => Ok(Tile::Suozi(o.with_red(is_red))),
            Tile::Wanzi(o) => Ok(Tile::Wanzi(o.with_red(is_red))),
            Tile::Tongzi(o) => Ok(Tile::Tongzi(o.with_red(is_red))),
        }
    }

    /// The suit.
    pub fn kind(self) -> (r: TileKind)
        ensures
            r == self.spec_kind(),
    {
        match self {
            Tile::Wanzi(_) => TileKind::Wanzi,
            Tile::Suozi(_) => TileKind::Suozi,
            Tile::Tongzi(_) => TileKind::Tongzi,
            Tile::Zipai(_) => TileKind::Zipai,
        }
    }

    /// Whether the tile carries the red flag.
    pub fn is_red(self) -> (r: bool)
        ensures
            r == self.red(),
    {
        match self.order() {
            Some(o) => o.is_red(),
            None => false,
        }
    }

    /// Whether the tile is a suited tile of rank 2 to 8.
    pub fn is_zhongzhang(self) -> (r: bool)
        ensures
            r == self.spec_is_zhongzhang(),
    {
        match self.order() {
            Some(o) => o.is_zhongzhang(),
            None => false,
        }
    }

    /// Whether the tile is a terminal or an honor.
    pub fn is_yaojiu(self) -> (r: bool)
        ensures
            r == self.spec_is_yaojiu(),
            r == !self.spec_is_zhongzhang(),
    {
        match self.order() {
            Some(o) => o.is_yaojiu(),
            None => true,
        }
    }

    /// Whether the tile is a wind.
    pub fn is_feng(self) -> (r: bool)
        ensures
            r == self.spec_is_feng(),
    {
        match self {
            Tile::Zipai(Zipai::East) => true,
            Tile::Zipai(Zipai::South) => true,
            Tile::Zipai(Zipai::West) => true,
            Tile::Zipai(Zipai::North) => true,
            _ => false,
        }
    }

    /// Whether the tile is a dragon.
    pub fn is_sanyuan(self) -> (r: bool)
        ensures
            r == self.spec_is_sanyuan(),
    {
        match self {
            Tile::Zipai(Zipai::Bai) => true,
            Tile::Zipai(Zipai::Fa) => true,
            Tile::Zipai(Zipai::Zhong) => true,
            _ => false,
        }
    }

    /// Whether an all-green hand may hold the tile.
    pub fn is_green(self) -> (r: bool)
        ensures
            r == self.spec_is_green(),
    {
        match self {
            Tile::Zipai(Zipai::Fa) => true,
            Tile::Suozi(o) => o.is_green_order(),
            _ => false,
        }
    }

    /// How many times over the tile is a value tile in `ctx`: 0, 1, or 2
    /// for a wind that is both the round wind and the seat wind.
    pub fn num_fan(self, ctx: &Context) -> (r: u32)
        ensures
            r == self.spec_num_fan(ctx.place, ctx.player),
            r <= 2,
    {
        match self {
            Tile::Zipai(zipai) => {
                let mut n: u32 = 0;
                if zipai == ctx.place {
                    n += 1;
                }
                if zipai == ctx.player {
                    n += 1;
                }
                if self.is_sanyuan() {
                    n += 1;
                }
                n
            },
            _ => 0,
        }
    }

    /// The tile as text: rank and suit letter, or the honor's name.
    pub fn to_string(&self) -> (r: String)
        ensures
            r@ == self.text(),
    {
        match *self {
            Tile::Suozi(o) => {
                let s = o.to_string();
                s.concat(if o.is_red() { "S" } else { "s" })
            },
            Tile::Wanzi(o) => {
                let s = o.to_string();
                s.concat(if o.is_red() { "M" } else { "m" })
            },
            Tile::Tongzi(o) => {
                let s = o.to_string();
                s.concat(if o.is_red() { "P" } else { "p" })
            },
            Tile::Zipai(z) => z.to_string(),
        }
    }

    /// The honor that a text names, by its name or by its number and `z`.
    pub open spec fn spec_parse_zipai(s: Seq<char>) -> Option<Zipai> {
        if s.len() == 1 {
            Zipai::of_name(s[0])
        } else if s.len() == 2 && s[1] == 'z' {
            Zipai::of_digit(s[0])
        } else {
            None
        }
    }

    /// The rank that a character stands for: the low byte of its code less that of `0`.
    pub open spec fn spec_digit(c: char) -> int {
        (c as u32 % 256) as int - 48
    }

    /// The suited tile that a rank character and a suit letter name.
    pub open spec fn spec_parse_suited(order: char, kind: char) -> Result<Tile, ParseError> {
        let d = Tile::spec_digit(order);
        if kind != 's' && kind != 'm' && kind != 'p' && kind != 'S' && kind != 'M' && kind
            != 'P' {
            Err(ParseError::InvalidChar(kind))
        } else if !(1 <= d <= 9) {
            Err(ParseError::TileError(Error::InvalidOrder))
        } else if kind == 's' {
            Ok(Tile::Suozi(Order::make(d, false)))
        } else if kind == 'm' {
            Ok(Tile::Wanzi(Order::make(d, false)))
        } else if kind == 'p' {
            Ok(Tile::Tongzi(Order::make(d, false)))
        } else if kind == 'S' {
            Ok(Tile::Suozi(Order::make(d, true)))
        } else if kind == 'M' {
            Ok(Tile::Wanzi(Order::make(d, true)))
        } else {
            Ok(Tile::Tongzi(Order::make(d, true)))
        }
    }

    /// The tile that a text names.
    pub open spec fn spec_parse(s: Seq<char>) -> Result<Tile, ParseError> {
        match Tile::spec_parse_zipai(s) {
            Some(z) => Ok(Tile::Zipai(z)),
            None => if s.len() != 2 {
                Err(ParseError::InvalidStringLen)
            } else {
                Tile::spec_parse_suited(s[0], s[1])
            },
        }
    }

    /// Reads a suited tile from a rank character and a suit letter.
    pub fn parse_suited(order: char, kind: char) -> (r: Result<Tile, ParseError>)
        ensures
            r == Tile::spec_parse_suited(order, kind),
    {
        if kind != 's' && kind != 'm' && kind != 'p' && kind != 'S' && kind != 'M' && kind
            != 'P' {
            return Err(ParseError::InvalidChar(kind));
        }
        let low: u32 = order as u32 % 256;
        if low < 49 || low > 57 {
            return Err(ParseError::TileError(Error::InvalidOrder));
        }
        let d: u8 = (low - 48) as u8;
        let is_red = kind == 'S' || kind == 'M' || kind == 'P';
        let o = match Order::new(d) {
            Ok(o) => o.with_red(is_red),
            Err(e) => {
                return Err(ParseError::TileError(e));
            },
        };
        if kind == 's' || kind == 'S' {
            Ok(Tile::Suozi(o))
        } else if kind == 'm' || kind == 'M' {
            Ok(Tile::Wanzi(o))
        } else {
            Ok(Tile::Tongzi(o))
        }
    }

    /// Reads a tile from the characters of its text.
    pub fn parse_chars(chars: &Vec<char>) -> (r: Result<Tile, ParseError>)
        ensures
            r == Tile::spec_parse(chars@),
    {
        let n = chars.len();
        if n == 1 {
            let c = chars[0];
            let z = if c == '東' {
                Some(Zipai::East)
            } else if c == '南' {
                Some(Zipai::South)
            } else if c == '西' {
                Some(Zipai::West)
            } else if c == '北' {
                Some(Zipai::North)
            } else if c == '白' {
                Some(Zipai::Bai)
            } else if c == '發' {
                Some(Zipai::Fa)
            } else if c == '中' {
                Some(Zipai::Zhong)
            } else {
                None
            };
            return match z {
                Some(z) => Ok(Tile::Zipai(z)),
                None => Err(ParseError::InvalidStringLen),
            };
        }
        if n != 2 {
            return Err(ParseError::InvalidStringLen);
        }
        let a = chars[0];
        let b = chars[1];
        if b == 'z' {
            let z = if a == '1' {
                Some(Zipai::East)
            } else if a == '2' {
                Some(Zipai::South)
            } else if a == '3' {
                Some(Zipai::West)
            } else if a == '4' {
                Some(Zipai::North)
            } else if a == '5' {
                Some(Zipai::Bai)
            } else if a == '6' {
                Some(Zipai::Fa)
            } else if a == '7' {
                Some(Zipai::Zhong)
            } else {
                None
            };
            if let Some(z) = z {
                return Ok(Tile::Zipai(z));
            }
        }
        Tile::parse_suited(a, b)
    }

    /// Reads a tile from its text: `4s`, `5M`, `東` or `1z`.
    pub fn parse(from: &str) -> (r: Result<Tile, ParseError>)
        ensures
            r == Tile::spec_parse(from@),
    {
        let chars = chars_of(from);
        Tile::parse_chars(&chars)
    }
}

impl core::str::FromStr for Tile {
    type Err = ParseError;

    fn from_str(from: &str) -> (r: Result<Tile, ParseError>)
        ensures
            r == Tile::spec_parse(from@),
    {
        Tile::parse(from)
    }
}

impl<'a> TryFrom<&'a str> for Tile {
    type Error = ParseError;

    fn try_from(from: &'a str) -> (r: Result<Tile, ParseError>) {
        Tile::parse(from)
    }
}

impl<'a> vstd::std_specs::convert::TryFromSpecImpl<&'a str> for Tile {
    open spec fn obeys_try_from_spec() -> bool {
        true
    }

    open spec fn try_from_spec(from: &'a str) -> Result<Tile, ParseError> {
        Tile::spec_parse(from@)
    }
}

impl PartialEq for Tile {
    fn eq(&self, other: &Tile) -> (r: bool) {
        self.index() == other.index()
    }
}

impl vstd::std_specs::cmp::PartialEqSpecImpl for Tile {
    open spec fn obeys_eq_spec() -> bool {
        true
    }

    open spec fn eq_spec(&self, other: &Tile) -> bool {
        self.key() == other.key()
    }
}

impl Eq for Tile {

}

impl PartialOrd for Tile {
    fn partial_cmp(&self, other: &Tile) -> (r: Option<Ordering>) {
        let a: u16 = self.index();
        let b: u16 = other.index();
        if a < b {
            Some(Ordering::Less)
        } else if a > b {
            Some(Ordering::Greater)
        } else {
            Some(Ordering::Equal)
        }
    }
}

impl vstd::std_specs::cmp::PartialOrdSpecImpl for Tile {
    open spec fn obeys_partial_cmp_spec() -> bool {
        true
    }

    open spec fn partial_cmp_spec(&self, other: &Tile) -> Option<Ordering> {
        if self.key() < other.key() {
            Some(Ordering::Less)
        } else if self.key() > other.key() {
            Some(Ordering::Greater)
        } else {
            Some(Ordering::Equal)
        }
    }
}

impl From<Error> for ParseError {
    fn from(err: Error) -> (r: ParseError) {
        ParseError::TileError(err)
    }
}

impl vstd::std_specs::convert::FromSpecImpl<Error> for ParseError {
    open spec fn obeys_from_spec() -> bool {
        true
    }

    open spec fn from_spec(err: Error) -> ParseError {
        ParseError::TileError(err)
    }
}

/// The next tile of a valid tile is valid, and its key is one more.
pub proof fn lemma_next_key(t: Tile)
    requires
        t.valid(),
    ensures
        t.spec_next() matches Some(n) ==> n.key() == t.key() + 1 && n.valid() && !n.red()
            && n.spec_kind() == t.spec_kind(),
        t.spec_prev() matches Some(p) ==> p.key() == t.key() - 1 && p.valid() && !p.red()
            && p.spec_kind() == t.spec_kind(),
{
}

} // verus!
