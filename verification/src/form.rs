//! Scoring patterns and points.

use crate::agaritilesets::{
    all_len, all_nonempty, AgariTilesets, AgariView, MachiKind, RongmingView,
};
use crate::context::Direction;
use crate::sorting::lemma_sort_by_sorted;
use crate::tiles::{is_gangzi, is_kezi, is_shunzi, tile_key};
use crate::tilesets::views;
use crate::context::Lizhi;
use crate::tile::{Order, Tile, TileKind, Zipai};
use crate::tiles::{
    count_key, has_key, lemma_has_key_multiset, lemma_push_remove, lemma_same_tiles,
    lemma_sort_same_tiles, same_tiles, sort_tiles, Tiles,
};
use crate::tilesets::{count_in, Tilesets, TilesetsView};
use crate::utils::{ceil_at, decimal_text, lemma_ceil_at, push_decimal, spec_ceil_at, two_to};
use core::cmp::Ordering;
use vstd::prelude::*;

verus! {

/// Fan, fu and the number of limits that a hand or a pattern is worth.
#[derive(Debug, Clone, Copy)]
pub struct Point {
    /// Fan.
    pub fan: u32,
    /// Fu.
    pub fu: u32,
    /// How many times over the hand is a true limit hand.
    pub yiman: u32,
}

/// A point shown in full: fan and fu, the payment and the rank.
pub struct PointDisplayFull {
    pub point: Point,
    pub is_parent: bool,
}

/// A pattern shown with its worth.
#[derive(Debug, Clone, Copy)]
pub struct FormDisplay {
    /// The pattern's name.
    pub name: &'static str,
    /// The pattern's worth.
    pub point: Point,
}

/// The sum of the fan of the points.
pub open spec fn total_fan(s: Seq<Point>) -> int
    decreases s.len(),
{
    if s.len() == 0 {
        0
    } else {
        total_fan(s.drop_last()) + s.last().fan
    }
}

/// The sum of the fu of the points.
pub open spec fn total_fu(s: Seq<Point>) -> int
    decreases s.len(),
{
    if s.len() == 0 {
        0
    } else {
        total_fu(s.drop_last()) + s.last().fu
    }
}

/// The sum of the limits of the points.
pub open spec fn total_yiman(s: Seq<Point>) -> int
    decreases s.len(),
{
    if s.len() == 0 {
        0
    } else {
        total_yiman(s.drop_last()) + s.last().yiman
    }
}

/// The sums are not negative and grow with the sequence.
pub proof fn lemma_totals_grow(s: Seq<Point>, i: int)
    requires
        0 <= i <= s.len(),
    ensures
        0 <= total_fan(s.take(i)) <= total_fan(s),
        0 <= total_fu(s.take(i)) <= total_fu(s),
        0 <= total_yiman(s.take(i)) <= total_yiman(s),
    decreases s.len(),
{
    if i == s.len() {
        assert(s.take(i) =~= s);
        if s.len() > 0 {
            assert(s.drop_last() =~= s.take(i - 1));
            lemma_totals_grow(s.drop_last(), i - 1);
            assert(s.drop_last().take(i - 1) =~= s.drop_last());
        }
    } else {
        assert(s.drop_last().take(i) =~= s.take(i));
        lemma_totals_grow(s.drop_last(), i);
    }
}

impl Point {
    /// The payment of a hand worth five fan.
    pub open spec fn spec_manguan(is_parent: bool) -> int {
        if is_parent {
            12000
        } else {
            8000
        }
    }

    /// The payment of a single true limit hand.
    pub open spec fn spec_limit(is_parent: bool) -> int {
        if is_parent {
            48000
        } else {
            32000
        }
    }

    /// The payment of a hand of at most four fan: fu times 4 (6 for the
    /// dealer) times two to the fan plus two, rounded up to hundreds and
    /// capped at the payment of five fan.
    pub open spec fn spec_few(fan: int, fu: int, is_parent: bool) -> int {
        let mul: int = if is_parent {
            6
        } else {
            4
        };
        let raw = fu * mul * two_to((fan + 2) as nat);
        if raw > Point::spec_manguan(is_parent) {
            Point::spec_manguan(is_parent)
        } else {
            spec_ceil_at(raw, 100)
        }
    }

    /// The payment that the point is worth.
    pub open spec fn spec_value(self, is_parent: bool) -> int {
        if self.yiman > 0 {
            self.yiman * Point::spec_limit(is_parent)
        } else if self.fan <= 4 {
            if (self.fan == 4 && self.fu == 30) || (self.fan == 3 && self.fu == 60) {
                Point::spec_manguan(is_parent)
            } else {
                Point::spec_few(self.fan as int, self.fu as int, is_parent)
            }
        } else if self.fan == 5 {
            Point::spec_manguan(is_parent)
        } else if self.fan <= 7 {
            if is_parent {
                18000
            } else {
                12000
            }
        } else if self.fan <= 10 {
            if is_parent {
                24000
            } else {
                16000
            }
        } else if self.fan <= 12 {
            if is_parent {
                36000
            } else {
                24000
            }
        } else {
            Point::spec_limit(is_parent)
        }
    }

    /// The name of the rank that the point reaches, if it reaches one.
    pub open spec fn spec_rank(self, is_parent: bool) -> Option<Seq<char>> {
        if self.yiman == 0 {
            if self.fan <= 4 {
                if self.spec_value(is_parent) == Point::spec_manguan(is_parent) {
                    Some("満貫"@)
                } else {
                    None
                }
            } else if self.fan == 5 {
                Some("満貫"@)
            } else if self.fan <= 7 {
                Some("跳満"@)
            } else if self.fan <= 10 {
                Some("倍満"@)
            } else if self.fan <= 12 {
                Some("三倍満"@)
            } else {
                Some("役満"@)
            }
        } else if self.yiman == 1 {
            Some("役満"@)
        } else if self.yiman == 2 {
            Some("ダブル役満"@)
        } else if self.yiman == 3 {
            Some("トリプル役満"@)
        } else if self.yiman == 4 {
            Some("四倍役満"@)
        } else if self.yiman == 5 {
            Some("五倍役満"@)
        } else {
            Some(decimal_text(self.yiman as nat) + "倍役満"@)
        }
    }

    /// Fan, and fu where it counts: below five fan and not zero. A true
    /// limit is shown as the thirteen fan that it stands for.
    pub open spec fn text(self) -> Seq<char> {
        if self.yiman > 0 {
            decimal_text((13 * self.yiman) as nat) + "翻"@
        } else if self.fu == 0 || self.fan > 4 {
            decimal_text(self.fan as nat) + "翻"@
        } else {
            decimal_text(self.fan as nat) + "翻"@ + decimal_text(self.fu as nat) + "符"@
        }
    }

    /// Whether the point reaches a limit: by a true limit, or by thirteen fan.
    pub open spec fn spec_is_yiman(self) -> bool {
        self.yiman > 0 || self.fan >= 13
    }

    /// Fan and fu below a limit, the payment, and the rank if there is one.
    pub open spec fn full_text(self, is_parent: bool) -> Seq<char> {
        (if self.spec_is_yiman() {
            Seq::empty()
        } else {
            self.text() + " "@
        }) + decimal_text(self.spec_value(is_parent) as nat) + "点"@ + (match self.spec_rank(
            is_parent,
        ) {
            Some(r) => " "@ + r,
            None => Seq::empty(),
        })
    }

    /// Whether `self` comes before `other`: by fan, then by fu.
    pub open spec fn below(self, other: Point) -> bool {
        self.fan < other.fan || (self.fan == other.fan && self.fu < other.fu)
    }

    /// The number by which points are sorted: fan first, then fu.
    pub open spec fn key(self) -> int {
        self.fan * 0x1_0000_0000 + self.fu
    }

    /// A point of `fan` fan.
    pub fn new(fan: u32) -> (r: Point)
        ensures
            r == (Point { fan, fu: 0, yiman: 0 }),
    {
        Point { fan, fu: 0, yiman: 0 }
    }

    /// A point of `fan` fan and `fu` fu.
    pub fn with_fu(fan: u32, fu: u32) -> (r: Point)
        ensures
            r == (Point { fan, fu, yiman: 0 }),
    {
        Point { fan, fu, yiman: 0 }
    }

    /// Five fan.
    pub fn new_manguan() -> (r: Point)
        ensures
            r == (Point { fan: 5, fu: 0, yiman: 0 }),
    {
        Point::new(5)
    }

    /// One true limit: no fan, and one limit.
    pub fn new_yiman() -> (r: Point)
        ensures
            r == (Point { fan: 0, fu: 0, yiman: 1 }),
    {
        Point { fan: 0, fu: 0, yiman: 1 }
    }

    /// Whether the point reaches a limit: by a true limit, or by thirteen fan.
    pub fn is_yiman(self) -> (r: bool)
        ensures
            r == self.spec_is_yiman(),
    {
        self.yiman > 0 || self.fan >= 13
    }

    /// Whether the point holds a true limit.
    pub fn is_true_yiman(self) -> (r: bool)
        ensures
            r == (self.yiman > 0),
    {
        self.yiman > 0
    }

    /// The payment that the point is worth.
    pub fn value(self, is_parent: bool) -> (r: u32)
        requires
            self.spec_value(is_parent) <= u32::MAX,
        ensures
            r == self.spec_value(is_parent),
    {
        let manguan: u32 = if is_parent {
            12000
        } else {
            8000
        };
        if self.yiman > 0 {
            let unit: u64 = if is_parent {
                48000
            } else {
                32000
            };
            let y: u64 = self.yiman as u64;
            assert(y * unit <= 0xffff_ffff * 48000) by (nonlinear_arith)
                requires
                    y <= 0xffff_ffff,
                    unit <= 48000,
            ;
            let v: u64 = y * unit;
            v as u32
        } else if self.fan <= 4 {
            if (self.fan == 4 && self.fu == 30) || (self.fan == 3 && self.fu == 60) {
                manguan
            } else {
                let mul: u64 = if is_parent {
                    6
                } else {
                    4
                };
                let mut p: u64 = 4;
                let mut i: u32 = 0;
                proof {
                    reveal_with_fuel(two_to, 3);
                }
                while i < self.fan
                    invariant
                        i <= self.fan <= 4,
                        p == two_to((i + 2) as nat),
                        p <= 4 * two_to(i as nat),
                        two_to(i as nat) <= 16,
                    decreases self.fan - i,
                {
                    proof {
                        reveal_with_fuel(two_to, 7);
                    }
                    p = p * 2;
                    i += 1;
                }
                let f: u64 = self.fu as u64;
                assert(f * mul <= 0xffff_ffff * 6) by (nonlinear_arith)
                    requires
                        f <= 0xffff_ffff,
                        mul <= 6,
                ;
                let a: u64 = f * mul;
                assert(a * p <= 0xffff_ffff * 6 * 64) by (nonlinear_arith)
                    requires
                        a <= 0xffff_ffff * 6,
                        p <= 64,
                ;
                let raw: u64 = a * p;
                if raw > manguan as u64 {
                    manguan
                } else {
                    ceil_at(raw as u32, 100)
                }
            }
        } else if self.fan == 5 {
            manguan
        } else if self.fan <= 7 {
            if is_parent {
                18000
            } else {
                12000
            }
        } else if self.fan <= 10 {
            if is_parent {
                24000
            } else {
                16000
            }
        } else if self.fan <= 12 {
            if is_parent {
                36000
            } else {
                24000
            }
        } else if is_parent {
            48000
        } else {
            32000
        }
    }

    /// The name of the rank that the point reaches, if it reaches one.
    pub fn rank(self, is_parent: bool) -> (r: Option<String>)
        ensures
            match r {
                Some(s) => self.spec_rank(is_parent) == Some(s@),
                None => self.spec_rank(is_parent) is None,
            },
    {
        if self.yiman == 0 {
            if self.fan <= 4 {
                proof {
                    Point::lemma_few_value(self.fan as int, self.fu as int, is_parent);
                }
                let value = self.value(is_parent);
                let manguan: u32 = if is_parent {
                    12000
                } else {
                    8000
                };
                if value == manguan {
                    Some(String::from_str("満貫"))
                } else {
                    None
                }
            } else if self.fan == 5 {
                Some(String::from_str("満貫"))
            } else if self.fan <= 7 {
                Some(String::from_str("跳満"))
            } else if self.fan <= 10 {
                Some(String::from_str("倍満"))
            } else if self.fan <= 12 {
                Some(String::from_str("三倍満"))
            } else {
                Some(String::from_str("役満"))
            }
        } else if self.yiman == 1 {
            Some(String::from_str("役満"))
        } else if self.yiman == 2 {
            Some(String::from_str("ダブル役満"))
        } else if self.yiman == 3 {
            Some(String::from_str("トリプル役満"))
        } else if self.yiman == 4 {
            Some(String::from_str("四倍役満"))
        } else if self.yiman == 5 {
            Some(String::from_str("五倍役満"))
        } else {
            let mut s = String::new();
            push_decimal(&mut s, self.yiman as u64);
            s.append("倍役満");
            proof {
                assert(s@ =~= decimal_text(self.yiman as nat) + "倍役満"@);
            }
            Some(s)
        }
    }

    /// A hand of at most four fan never pays more than five fan do.
    pub proof fn lemma_few_value(fan: int, fu: int, is_parent: bool)
        requires
            0 <= fan <= 4,
            0 <= fu,
        ensures
            0 <= Point::spec_few(fan, fu, is_parent) <= Point::spec_manguan(is_parent),
            Point::spec_few(fan, fu, is_parent) % 100 == 0,
    {
        reveal_with_fuel(two_to, 7);
        let mul: int = if is_parent {
            6
        } else {
            4
        };
        let p = two_to((fan + 2) as nat);
        assert(p > 0);
        let raw = fu * mul * p;
        assert(raw >= 0) by (nonlinear_arith)
            requires
                raw == fu * mul * p,
                fu >= 0,
                mul > 0,
                p > 0,
        ;
        if raw <= Point::spec_manguan(is_parent) {
            lemma_ceil_at(raw, 100);
        }
    }

    /// The point, to be shown in full.
    pub fn display_full(self, is_parent: bool) -> (r: PointDisplayFull)
        ensures
            r.point == self,
            r.is_parent == is_parent,
    {
        PointDisplayFull { point: self, is_parent }
    }

    /// Fan, and fu where it counts.
    pub fn to_string(&self) -> (r: String)
        ensures
            r@ == self.text(),
    {
        let mut s = String::new();
        if self.yiman > 0 {
            push_decimal(&mut s, 13 * (self.yiman as u64));
            s.append("翻");
        } else {
            push_decimal(&mut s, self.fan as u64);
            s.append("翻");
            if !(self.fu == 0 || self.fan > 4) {
                push_decimal(&mut s, self.fu as u64);
                s.append("符");
            }
        }
        proof {
            assert(s@ =~= self.text());
        }
        s
    }

    /// The sum of the points: fan, fu and limits each add up.
    pub fn sum(points: &Vec<Point>) -> (r: Point)
        requires
            total_fan(points@) <= u32::MAX,
            total_fu(points@) <= u32::MAX,
            total_yiman(points@) <= u32::MAX,
        ensures
            r.fan == total_fan(points@),
            r.fu == total_fu(points@),
            r.yiman == total_yiman(points@),
    {
        let mut fan: u32 = 0;
        let mut fu: u32 = 0;
        let mut yiman: u32 = 0;
        let mut i: usize = 0;
        while i < points.len()
            invariant
                i <= points@.len(),
                total_fan(points@) <= u32::MAX,
                total_fu(points@) <= u32::MAX,
                total_yiman(points@) <= u32::MAX,
                fan == total_fan(points@.take(i as int)),
                fu == total_fu(points@.take(i as int)),
                yiman == total_yiman(points@.take(i as int)),
            decreases points@.len() - i,
        {
            proof {
                assert(points@.take(i + 1).drop_last() =~= points@.take(i as int));
                lemma_totals_grow(points@, i + 1);
            }
            fan += points[i].fan;
            fu += points[i].fu;
            yiman += points[i].yiman;
            i += 1;
        }
        proof {
            assert(points@.take(points@.len() as int) =~= points@);
        }
        Point { fan, fu, yiman }
    }

    /// Compares by fan, then by fu; the limits have no part in it.
    pub fn cmp(&self, other: &Point) -> (r: Ordering)
        ensures
            r == (if self.below(*other) {
                Ordering::Less
            } else if other.below(*self) {
                Ordering::Greater
            } else {
                Ordering::Equal
            }),
    {
        if self.fan < other.fan {
            Ordering::Less
        } else if self.fan > other.fan {
            Ordering::Greater
        } else if self.fu < other.fu {
            Ordering::Less
        } else if self.fu > other.fu {
            Ordering::Greater
        } else {
            Ordering::Equal
        }
    }
}

impl PointDisplayFull {
    /// Fan and fu below a limit, the payment, and the rank if there is one.
    pub fn to_string(&self) -> (r: String)
        requires
            self.point.spec_value(self.is_parent) <= u32::MAX,
        ensures
            r@ == self.point.full_text(self.is_parent),
    {
        let mut s = String::new();
        if !self.point.is_yiman() {
            let t = self.point.to_string();
            s.append(t.as_str());
            s.append(" ");
        }
        push_decimal(&mut s, self.point.value(self.is_parent) as u64);
        s.append("点");
        match self.point.rank(self.is_parent) {
            Some(rank) => {
                s.append(" ");
                s.append(rank.as_str());
            },
            None => {},
        }
        proof {
            assert(s@ =~= self.point.full_text(self.is_parent));
        }
        s
    }
}

impl PartialEq for Point {
    fn eq(&self, other: &Point) -> (r: bool) {
        self.fan == other.fan && self.fu == other.fu
    }
}

impl vstd::std_specs::cmp::PartialEqSpecImpl for Point {
    open spec fn obeys_eq_spec() -> bool {
        true
    }

    open spec fn eq_spec(&self, other: &Point) -> bool {
        self.fan == other.fan && self.fu == other.fu
    }
}

impl Eq for Point {

}

impl PartialOrd for Point {
    fn partial_cmp(&self, other: &Point) -> (r: Option<Ordering>) {
        Some(self.cmp(other))
    }
}

impl vstd::std_specs::cmp::PartialOrdSpecImpl for Point {
    open spec fn obeys_partial_cmp_spec() -> bool {
        true
    }

    open spec fn partial_cmp_spec(&self, other: &Point) -> Option<Ordering> {
        if self.below(*other) {
            Some(Ordering::Less)
        } else if other.below(*self) {
            Some(Ordering::Greater)
        } else {
            Some(Ordering::Equal)
        }
    }
}

/// A scoring pattern.
#[derive(Debug, Clone, Copy, PartialEq, Eq, Structural)]
pub enum Form {
    /// Ready hand.
    Lizhi,
    /// Won within one turn of the ready-hand declaration.
    Ippatsu,
    /// Self-drawn with a concealed hand.
    Menqianqingzimohu,
    /// Value tiles, with the number of them.
    Fanpai(u32),
    /// All simples.
    Duanyaojiu,
    /// All runs, a pair without value and a two-sided wait.
    Pinghe,
    /// One pair of matching runs.
    Yibeikou,
    /// Won on the last tile of the wall.
    Haidimoyue,
    /// Won on the last discard.
    Hedilaoyu,
    /// Won on the tile drawn after a quad.
    Lingshangkaihua,
    /// Won on a tile added to a quad.
    Chenggang,
    /// Ready hand declared on the first turn.
    Doublelizhi,
    /// The same run in all three suits; the flag says whether the hand is concealed.
    Sanshokudojun(bool),
    /// The same triplet in all three suits.
    Sanshokudoko,
    /// Three concealed triplets.
    Sananke,
    /// The runs 123, 456 and 789 of one suit; the flag says whether the hand is concealed.
    Ikkitsukan(bool),
    /// Seven pairs.
    Qiduizi,
    /// All triplets.
    Duiduihe,
    /// A terminal or honor in every group, honors among them; the flag says whether the hand is concealed.
    Hunquandaiyaojiu(bool),
    /// Three quads.
    Sangangzi,
    /// Two pairs of matching runs.
    Liangbeigou,
    /// A terminal in every group; the flag says whether the hand is concealed.
    Chunquandaiyaojiu(bool),
    /// One suit and honors; the flag says whether the hand is concealed.
    Hungyise(bool),
    /// Two dragon triplets and a dragon pair.
    Shousangen,
    /// Terminals and honors only.
    Hunlaotou,
    /// One suit only; the flag says whether the hand is concealed.
    Qingyise(bool),
    /// Four concealed triplets; the flag says whether the wait was on the pair.
    Sianke(bool),
    /// Three dragon triplets.
    Daisangen,
    /// Thirteen orphans; the flag says whether the wait was thirteen-sided.
    Kokushimuso(bool),
    /// All green.
    Luyise,
    /// All honors.
    Ziyise,
    /// All terminals.
    Qinglaotou,
    /// Four quads.
    Sigangzi,
    /// Three wind triplets and a wind pair.
    Shousushi,
    /// Four wind triplets.
    Daisushi,
    /// Nine gates; the flag says whether the wait was nine-sided.
    Jiulianbaodeng(bool),
    /// Won by a non-dealer on the first draw.
    Dihe,
    /// Won by the dealer on the first draw.
    Tianhe,
    /// Bonus tiles, with the number of them.
    Dora(u32),
}

impl Form {
    /// The pattern's name.
    pub open spec fn spec_name(self) -> Seq<char> {
        match self {
            Form::Lizhi => "立直"@,
            Form::Ippatsu => "一発"@,
            Form::Menqianqingzimohu => "門前清自摸和"@,
            Form::Fanpai(_) => "役牌"@,
            Form::Duanyaojiu => "断么九"@,
            Form::Pinghe => "平和"@,
            Form::Yibeikou => "一盃口"@,
            Form::Haidimoyue => "海底撈月"@,
            Form::Hedilaoyu => "河底撈魚"@,
            Form::Lingshangkaihua => "嶺上開花"@,
            Form::Chenggang => "槍槓"@,
            Form::Doublelizhi => "ダブル立直"@,
            Form::Sanshokudojun(_) => "三色同順"@,
            Form::Sanshokudoko => "三色同刻"@,
            Form::Sananke => "三暗刻"@,
            Form::Ikkitsukan(_) => "一気通貫"@,
            Form::Qiduizi => "七対子"@,
            Form::Duiduihe => "対々和"@,
            Form::Hunquandaiyaojiu(_) => "混全帯幺九"@,
            Form::Sangangzi => "三槓子"@,
            Form::Liangbeigou => "二盃口"@,
            Form::Chunquandaiyaojiu(_) => "純全帯公九"@,
            Form::Hungyise(_) => "混一色"@,
            Form::Shousangen => "小三元"@,
            Form::Hunlaotou => "混老頭"@,
            Form::Qingyise(_) => "清一色"@,
            Form::Sianke(b) => if b {
                "四暗刻単騎"@
            } else {
                "四暗刻"@
            },
            Form::Daisangen => "大三元"@,
            Form::Kokushimuso(b) => if b {
                "国士無双13面待ち"@
            } else {
                "国士無双"@
            },
            Form::Luyise => "緑一色"@,
            Form::Ziyise => "字一色"@,
            Form::Qinglaotou => "清老頭"@,
            Form::Sigangzi => "四槓子"@,
            Form::Shousushi => "小四喜"@,
            Form::Daisushi => "大四喜"@,
            Form::Jiulianbaodeng(b) => if b {
                "純正九蓮宝燈"@
            } else {
                "九蓮宝燈"@
            },
            Form::Dihe => "地和"@,
            Form::Tianhe => "天和"@,
            Form::Dora(_) => "ドラ"@,
        }
    }

    /// What the pattern is worth.
    pub open spec fn spec_point(self) -> Point {
        match self {
            Form::Lizhi => Point { fan: 1, fu: 0, yiman: 0 },
            Form::Ippatsu => Point { fan: 1, fu: 0, yiman: 0 },
            Form::Menqianqingzimohu => Point { fan: 1, fu: 0, yiman: 0 },
            Form::Fanpai(n) => Point { fan: n, fu: 0, yiman: 0 },
            Form::Duanyaojiu => Point { fan: 1, fu: 0, yiman: 0 },
            Form::Pinghe => Point { fan: 1, fu: 0, yiman: 0 },
            Form::Yibeikou => Point { fan: 1, fu: 0, yiman: 0 },
            Form::Haidimoyue => Point { fan: 1, fu: 0, yiman: 0 },
            Form::Hedilaoyu => Point { fan: 1, fu: 0, yiman: 0 },
            Form::Lingshangkaihua => Point { fan: 1, fu: 0, yiman: 0 },
            Form::Chenggang => Point { fan: 1, fu: 0, yiman: 0 },
            Form::Doublelizhi => Point { fan: 2, fu: 0, yiman: 0 },
            Form::Sanshokudojun(b) => if b {
                Point { fan: 2, fu: 0, yiman: 0 }
            } else {
                Point { fan: 1, fu: 0, yiman: 0 }
            },
            Form::Sanshokudoko => Point { fan: 2, fu: 0, yiman: 0 },
            Form::Sananke => Point { fan: 2, fu: 0, yiman: 0 },
            Form::Ikkitsukan(b) => if b {
                Point { fan: 2, fu: 0, yiman: 0 }
            } else {
                Point { fan: 1, fu: 0, yiman: 0 }
            },
            Form::Qiduizi => Point { fan: 2, fu: 25, yiman: 0 },
            Form::Duiduihe => Point { fan: 2, fu: 0, yiman: 0 },
            Form::Hunquandaiyaojiu(b) => if b {
                Point { fan: 2, fu: 0, yiman: 0 }
            } else {
                Point { fan: 1, fu: 0, yiman: 0 }
            },
            Form::Sangangzi => Point { fan: 2, fu: 0, yiman: 0 },
            Form::Liangbeigou => Point { fan: 3, fu: 0, yiman: 0 },
            Form::Chunquandaiyaojiu(b) => if b {
                Point { fan: 2, fu: 0, yiman: 0 }
            } else {
                Point { fan: 1, fu: 0, yiman: 0 }
            },
            Form::Hungyise(b) => if b {
                Point { fan: 3, fu: 0, yiman: 0 }
            } else {
                Point { fan: 2, fu: 0, yiman: 0 }
            },
            Form::Shousangen => Point { fan: 4, fu: 0, yiman: 0 },
            Form::Hunlaotou => Point { fan: 2, fu: 0, yiman: 0 },
            Form::Qingyise(b) => if b {
                Point { fan: 6, fu: 0, yiman: 0 }
            } else {
                Point { fan: 5, fu: 0, yiman: 0 }
            },
            Form::Sianke(_) => Point { fan: 0, fu: 0, yiman: 1 },
            Form::Daisangen => Point { fan: 0, fu: 0, yiman: 1 },
            Form::Kokushimuso(_) => Point { fan: 0, fu: 0, yiman: 1 },
            Form::Luyise => Point { fan: 0, fu: 0, yiman: 1 },
            Form::Ziyise => Point { fan: 0, fu: 0, yiman: 1 },
            Form::Qinglaotou => Point { fan: 0, fu: 0, yiman: 1 },
            Form::Sigangzi => Point { fan: 0, fu: 0, yiman: 1 },
            Form::Shousushi => Point { fan: 0, fu: 0, yiman: 1 },
            Form::Daisushi => Point { fan: 0, fu: 0, yiman: 1 },
            Form::Jiulianbaodeng(_) => Point { fan: 0, fu: 0, yiman: 1 },
            Form::Dihe => Point { fan: 0, fu: 0, yiman: 1 },
            Form::Tianhe => Point { fan: 0, fu: 0, yiman: 1 },
            Form::Dora(n) => Point { fan: n, fu: 0, yiman: 0 },
        }
    }

    /// Whether the pattern is the bonus tiles.
    pub open spec fn spec_is_dora(self) -> bool {
        self is Dora
    }

    /// The pattern with its worth before its name.
    pub open spec fn text(self) -> Seq<char> {
        self.spec_point().text() + " "@ + self.spec_name()
    }

    /// The pattern's name.
    pub fn name(self) -> (r: &'static str)
        ensures
            r@ == self.spec_name(),
    {
        match self {
            Form::Lizhi => "立直",
            Form::Ippatsu => "一発",
            Form::Menqianqingzimohu => "門前清自摸和",
            Form::Fanpai(_) => "役牌",
            Form::Duanyaojiu => "断么九",
            Form::Pinghe => "平和",
            Form::Yibeikou => "一盃口",
            Form::Haidimoyue => "海底撈月",
            Form::Hedilaoyu => "河底撈魚",
            Form::Lingshangkaihua => "嶺上開花",
            Form::Chenggang => "槍槓",
            Form::Doublelizhi => "ダブル立直",
            Form::Sanshokudojun(_) => "三色同順",
            Form::Sanshokudoko => "三色同刻",
            Form::Sananke => "三暗刻",
            Form::Ikkitsukan(_) => "一気通貫",
            Form::Qiduizi => "七対子",
            Form::Duiduihe => "対々和",
            Form::Hunquandaiyaojiu(_) => "混全帯幺九",
            Form::Sangangzi => "三槓子",
            Form::Liangbeigou => "二盃口",
            Form::Chunquandaiyaojiu(_) => "純全帯公九",
            Form::Hungyise(_) => "混一色",
            Form::Shousangen => "小三元",
            Form::Hunlaotou => "混老頭",
            Form::Qingyise(_) => "清一色",
            Form::Sianke(b) => if b {
                "四暗刻単騎"
            } else {
                "四暗刻"
            },
            Form::Daisangen => "大三元",
            Form::Kokushimuso(b) => if b {
                "国士無双13面待ち"
            } else {
                "国士無双"
            },
            Form::Luyise => "緑一色",
            Form::Ziyise => "字一色",
            Form::Qinglaotou => "清老頭",
            Form::Sigangzi => "四槓子",
            Form::Shousushi => "小四喜",
            Form::Daisushi => "大四喜",
            Form::Jiulianbaodeng(b) => if b {
                "純正九蓮宝燈"
            } else {
                "九蓮宝燈"
            },
            Form::Dihe => "地和",
            Form::Tianhe => "天和",
            Form::Dora(_) => "ドラ",
        }
    }

    /// What the pattern is worth.
    pub fn point(self) -> (r: Point)
        ensures
            r == self.spec_point(),
    {
        match self {
            Form::Lizhi => Point { fan: 1, fu: 0, yiman: 0 },
            Form::Ippatsu => Point { fan: 1, fu: 0, yiman: 0 },
            Form::Menqianqingzimohu => Point { fan: 1, fu: 0, yiman: 0 },
            Form::Fanpai(n) => Point { fan: n, fu: 0, yiman: 0 },
            Form::Duanyaojiu => Point { fan: 1, fu: 0, yiman: 0 },
            Form::Pinghe => Point { fan: 1, fu: 0, yiman: 0 },
            Form::Yibeikou => Point { fan: 1, fu: 0, yiman: 0 },
            Form::Haidimoyue => Point { fan: 1, fu: 0, yiman: 0 },
            Form::Hedilaoyu => Point { fan: 1, fu: 0, yiman: 0 },
            Form::Lingshangkaihua => Point { fan: 1, fu: 0, yiman: 0 },
            Form::Chenggang => Point { fan: 1, fu: 0, yiman: 0 },
            Form::Doublelizhi => Point { fan: 2, fu: 0, yiman: 0 },
            Form::Sanshokudojun(b) => if b {
                Point { fan: 2, fu: 0, yiman: 0 }
            } else {
                Point { fan: 1, fu: 0, yiman: 0 }
            },
            Form::Sanshokudoko => Point { fan: 2, fu: 0, yiman: 0 },
            Form::Sananke => Point { fan: 2, fu: 0, yiman: 0 },
            Form::Ikkitsukan(b) => if b {
                Point { fan: 2, fu: 0, yiman: 0 }
            } else {
                Point { fan: 1, fu: 0, yiman: 0 }
            },
            Form::Qiduizi => Point { fan: 2, fu: 25, yiman: 0 },
            Form::Duiduihe => Point { fan: 2, fu: 0, yiman: 0 },
            Form::Hunquandaiyaojiu(b) => if b {
                Point { fan: 2, fu: 0, yiman: 0 }
            } else {
                Point { fan: 1, fu: 0, yiman: 0 }
            },
            Form::Sangangzi => Point { fan: 2, fu: 0, yiman: 0 },
            Form::Liangbeigou => Point { fan: 3, fu: 0, yiman: 0 },
            Form::Chunquandaiyaojiu(b) => if b {
                Point { fan: 2, fu: 0, yiman: 0 }
            } else {
                Point { fan: 1, fu: 0, yiman: 0 }
            },
            Form::Hungyise(b) => if b {
                Point { fan: 3, fu: 0, yiman: 0 }
            } else {
                Point { fan: 2, fu: 0, yiman: 0 }
            },
            Form::Shousangen => Point { fan: 4, fu: 0, yiman: 0 },
            Form::Hunlaotou => Point { fan: 2, fu: 0, yiman: 0 },
            Form::Qingyise(b) => if b {
                Point { fan: 6, fu: 0, yiman: 0 }
            } else {
                Point { fan: 5, fu: 0, yiman: 0 }
            },
            Form::Sianke(_) => Point { fan: 0, fu: 0, yiman: 1 },
            Form::Daisangen => Point { fan: 0, fu: 0, yiman: 1 },
            Form::Kokushimuso(_) => Point { fan: 0, fu: 0, yiman: 1 },
            Form::Luyise => Point { fan: 0, fu: 0, yiman: 1 },
            Form::Ziyise => Point { fan: 0, fu: 0, yiman: 1 },
            Form::Qinglaotou => Point { fan: 0, fu: 0, yiman: 1 },
            Form::Sigangzi => Point { fan: 0, fu: 0, yiman: 1 },
            Form::Shousushi => Point { fan: 0, fu: 0, yiman: 1 },
            Form::Daisushi => Point { fan: 0, fu: 0, yiman: 1 },
            Form::Jiulianbaodeng(_) => Point { fan: 0, fu: 0, yiman: 1 },
            Form::Dihe => Point { fan: 0, fu: 0, yiman: 1 },
            Form::Tianhe => Point { fan: 0, fu: 0, yiman: 1 },
            Form::Dora(n) => Point { fan: n, fu: 0, yiman: 0 },
        }
    }

    /// Whether the pattern is the bonus tiles, on which alone no hand wins.
    pub fn is_dora(self) -> (r: bool)
        ensures
            r == self.spec_is_dora(),
    {
        match self {
            Form::Dora(_) => true,
            _ => false,
        }
    }

    /// The pattern, to be shown with its worth.
    pub fn display(self) -> (r: FormDisplay)
        ensures
            r.name@ == self.spec_name(),
            r.point == self.spec_point(),
    {
        let name = self.name();
        let point = self.point();
        FormDisplay { name, point }
    }
}

impl FormDisplay {
    /// The worth, then the name.
    pub fn to_string(&self) -> (r: String)
        ensures
            r@ == self.point.text() + " "@ + self.name@,
    {
        let mut s = self.point.to_string();
        s.append(" ");
        s.append(self.name);
        s
    }
}

/// A short list of patterns, kept in a `smallvec::SmallVec` with room for
/// four before it goes to the heap. The verifier does not look inside: what
/// the list holds is known through `small_forms` alone.
#[verifier::external_body]
pub struct SmallVec(smallvec::SmallVec<[Form; 4]>);

/// The patterns that a short list holds, in order.
pub uninterp spec fn small_forms(v: SmallVec) -> Seq<Form>;

/// Calls `smallvec::SmallVec::new`. Taken on trust: the new list holds nothing.
#[verifier::external_body]
fn small_new() -> (r: SmallVec)
    ensures
        small_forms(r) == Seq::<Form>::empty(),
{
    SmallVec(smallvec::SmallVec::new())
}

/// Calls `smallvec::SmallVec::from_elem`. Taken on trust: the new list
/// holds the pattern `form` exactly `n` times.
#[verifier::external_body]
fn small_from_elem(form: Form, n: usize) -> (r: SmallVec)
    ensures
        small_forms(r) == Seq::new(n as nat, |i: int| form),
{
    SmallVec(smallvec::SmallVec::from_elem(form, n))
}

/// Calls `smallvec::SmallVec::push`. Taken on trust: the list holds what
/// it held, in the same order, and then the pattern `form`.
#[verifier::external_body]
fn small_push(v: &mut SmallVec, form: Form)
    ensures
        small_forms(*final(v)) == small_forms(*old(v)).push(form),
{
    v.0.push(form)
}

/// Calls `smallvec::SmallVec::into_vec`. Taken on trust: the `Vec` holds
/// what the list held, in the same order.
#[verifier::external_body]
fn small_into_vec(v: SmallVec) -> (r: Vec<Form>)
    ensures
        r@ == small_forms(v),
{
    v.0.into_vec()
}

impl SmallVec {
    /// The patterns of the list, as a `Vec`.
    pub fn into_vec(self) -> (r: Vec<Form>)
        ensures
            r@ == small_forms(self),
    {
        small_into_vec(self)
    }
}

/// The worth of a pattern, or nothing for none.
pub open spec fn worth(f: Option<Form>) -> Point {
    match f {
        Some(x) => x.spec_point(),
        None => Point { fan: 0, fu: 0, yiman: 0 },
    }
}

/// Whether a pattern, if there is one, is worth at most thirteen fan and
/// one limit, and carries no fu.
pub open spec fn plain_worth(f: Option<Form>) -> bool {
    worth(f).fan <= 13 && worth(f).fu == 0 && worth(f).yiman <= 1
}

/// `Some(f)` if `b`, and nothing otherwise.
pub open spec fn form_if(b: bool, f: Form) -> Option<Form> {
    if b {
        Some(f)
    } else {
        None
    }
}

/// How many bonus tiles `s` holds: for each tile, the bonus tiles equal
/// to it, and one more if it is red.
pub open spec fn dora_count(s: Seq<Tile>, doras: Seq<Tile>) -> nat
    decreases s.len(),
{
    if s.len() == 0 {
        0
    } else {
        dora_count(s.drop_last(), doras) + count_key(doras, s.last().key()) + if s.last().red() {
            1nat
        } else {
            0nat
        }
    }
}

/// The count of a key is at most the length of the sequence.
pub proof fn lemma_count_key_le(s: Seq<Tile>, k: int)
    ensures
        count_key(s, k) <= s.len(),
    decreases s.len(),
{
    if s.len() > 0 {
        lemma_count_key_le(s.drop_last(), k);
    }
}

/// The count of bonus tiles is at most the number of tiles times one more
/// than the number of bonus tiles.
pub proof fn lemma_dora_count_le(s: Seq<Tile>, doras: Seq<Tile>)
    ensures
        dora_count(s, doras) <= s.len() * (doras.len() + 1),
    decreases s.len(),
{
    if s.len() > 0 {
        lemma_dora_count_le(s.drop_last(), doras);
        lemma_count_key_le(doras, s.last().key());
        assert(s.len() * (doras.len() + 1) == (s.len() - 1) * (doras.len() + 1) + (doras.len()
            + 1)) by (nonlinear_arith);
    } else {
        assert(0 * (doras.len() + 1) == 0);
    }
}

/// Whether the tiles are seven pairs: each tile that occurs occurs exactly twice.
pub open spec fn is_seven_pairs(s: Seq<Tile>) -> bool {
    forall|i: int| 0 <= i < s.len() ==> count_key(s, (#[trigger] s[i]).key()) == 2
}

/// Whether `hand` is `target` and the tile `t`, red flags aside.
pub open spec fn completes(target: Seq<Tile>, t: Tile, hand: Seq<Tile>) -> bool {
    same_tiles(sort_tiles(target.push(t)), hand)
}

/// The place of the first tile of `target`, from place `i` on, that
/// makes `target` into `hand` when one more of it is added.
pub open spec fn first_completing(target: Seq<Tile>, hand: Seq<Tile>, i: int) -> Option<int>
    decreases target.len() - i,
{
    if i < 0 || i >= target.len() {
        None
    } else if completes(target, target[i], hand) {
        Some(i)
    } else {
        first_completing(target, hand, i + 1)
    }
}

/// The thirteen orphans: the terminals of the three suits and the seven honors.
pub open spec fn orphans() -> Seq<Tile> {
    seq![
        Tile::Suozi(Order::make(1, false)),
        Tile::Suozi(Order::make(9, false)),
        Tile::Wanzi(Order::make(1, false)),
        Tile::Wanzi(Order::make(9, false)),
        Tile::Tongzi(Order::make(1, false)),
        Tile::Tongzi(Order::make(9, false)),
        Tile::Zipai(Zipai::East),
        Tile::Zipai(Zipai::South),
        Tile::Zipai(Zipai::West),
        Tile::Zipai(Zipai::North),
        Tile::Zipai(Zipai::Bai),
        Tile::Zipai(Zipai::Fa),
        Tile::Zipai(Zipai::Zhong),
    ]
}

/// The ranks of the nine gates: 1112345678999.
pub open spec fn gate_ranks() -> Seq<int> {
    seq![1, 1, 1, 2, 3, 4, 5, 6, 7, 8, 9, 9, 9]
}

/// The nine gates of a suit; `suit` is 0 for bamboo, 1 for characters, 2 for circles.
pub open spec fn gates(suit: int) -> Seq<Tile> {
    Seq::new(
        13,
        |i: int|
            if suit == 0 {
                Tile::Suozi(Order::make(gate_ranks()[i], false))
            } else if suit == 1 {
                Tile::Wanzi(Order::make(gate_ranks()[i], false))
            } else {
                Tile::Tongzi(Order::make(gate_ranks()[i], false))
            },
    )
}

impl TilesetsView {
    /// The patterns of the ready-hand declaration.
    pub open spec fn lizhi_forms(self) -> Seq<Form> {
        match self.context.lizhi {
            Lizhi::Undeclared => Seq::empty(),
            Lizhi::Lizhi => seq![Form::Lizhi],
            Lizhi::LizhiIppatsu => seq![Form::Lizhi, Form::Ippatsu],
            Lizhi::DoubleLizhi => seq![Form::Doublelizhi],
            Lizhi::DoubleLizhiIppatsu => seq![Form::Doublelizhi, Form::Ippatsu],
        }
    }

    /// The bonus tiles: one fan for each, none where there is none.
    pub open spec fn dora(self) -> Option<Form> {
        let n = dora_count(self.tiles_without_doras(), self.doras);
        if n > 0 {
            Some(Form::Dora((n % 0x1_0000_0000) as u32))
        } else {
            None
        }
    }

    /// Whether the hand has no group beside the concealed hand.
    pub open spec fn is_plain(self) -> bool {
        !self.did_fulou() && self.angangs.len() == 0
    }

    /// Seven pairs: a hand without groups in which each tile occurs twice.
    pub open spec fn qiduizi(self) -> Option<Form> {
        form_if(self.is_plain() && is_seven_pairs(self.hand.push(self.last)), Form::Qiduizi)
    }

    /// Self-drawn with a concealed hand.
    pub open spec fn menqianqingzimohu(self) -> Option<Form> {
        form_if(self.is_zimo && self.is_menqian(), Form::Menqianqingzimohu)
    }

    /// All simples: no terminal and no honor in the hand.
    pub open spec fn duanyaojiu(self) -> Option<Form> {
        let all = self.tiles_without_doras();
        form_if(
            forall|i: int| 0 <= i < all.len() ==> (#[trigger] all[i]).spec_is_zhongzhang(),
            Form::Duanyaojiu,
        )
    }

    /// One suit only, or one suit and honors: none where there is no
    /// suited tile or where two suits occur.
    pub open spec fn hungyise_qingyise(self) -> Option<Form> {
        let all = self.tiles_without_doras();
        let suited = exists|i: int|
            0 <= i < all.len() && (#[trigger] all[i]).spec_kind() != TileKind::Zipai;
        let one_suit = forall|i: int, j: int|
            0 <= i < all.len() && 0 <= j < all.len() && (#[trigger] all[i]).spec_kind()
                != TileKind::Zipai && (#[trigger] all[j]).spec_kind() != TileKind::Zipai
                ==> all[i].spec_kind() == all[j].spec_kind();
        if !suited || !one_suit {
            None
        } else if exists|i: int|
            0 <= i < all.len() && (#[trigger] all[i]).spec_kind() == TileKind::Zipai {
            Some(Form::Hungyise(self.is_menqian()))
        } else {
            Some(Form::Qingyise(self.is_menqian()))
        }
    }

    /// Terminals and honors only.
    pub open spec fn hunlaotou(self) -> Option<Form> {
        let all = self.tiles_without_doras();
        form_if(
            forall|i: int| 0 <= i < all.len() ==> (#[trigger] all[i]).spec_is_yaojiu(),
            Form::Hunlaotou,
        )
    }

    /// Whether a hand without groups is `target` with one more of a tile
    /// of `target`, and then whether that tile, the first of them in
    /// `target`, is the winning tile.
    pub open spec fn shape(self, target: Seq<Tile>) -> Option<bool> {
        if !self.is_plain() {
            None
        } else {
            match first_completing(target, sort_tiles(self.hand.push(self.last)), 0) {
                Some(i) => Some(target[i].key() == self.last.key()),
                None => None,
            }
        }
    }

    /// Thirteen orphans.
    pub open spec fn kokushimuso(self) -> Option<Form> {
        match self.shape(orphans()) {
            Some(g) => Some(Form::Kokushimuso(g)),
            None => None,
        }
    }

    /// Nine gates, in the first suit in which the hand makes them.
    pub open spec fn jiulianbaodeng(self) -> Option<Form> {
        match self.shape(gates(0)) {
            Some(g) => Some(Form::Jiulianbaodeng(g)),
            None => match self.shape(gates(1)) {
                Some(g) => Some(Form::Jiulianbaodeng(g)),
                None => match self.shape(gates(2)) {
                    Some(g) => Some(Form::Jiulianbaodeng(g)),
                    None => None,
                },
            },
        }
    }

    /// All green.
    pub open spec fn luyise(self) -> Option<Form> {
        let all = self.tiles_without_doras();
        form_if(
            forall|i: int| 0 <= i < all.len() ==> (#[trigger] all[i]).spec_is_green(),
            Form::Luyise,
        )
    }

    /// All honors.
    pub open spec fn ziyise(self) -> Option<Form> {
        let all = self.tiles_without_doras();
        form_if(
            forall|i: int|
                0 <= i < all.len() ==> (#[trigger] all[i]).spec_kind() == TileKind::Zipai,
            Form::Ziyise,
        )
    }

    /// All terminals.
    pub open spec fn qinglaotou(self) -> Option<Form> {
        let all = self.tiles_without_doras();
        form_if(
            forall|i: int|
                0 <= i < all.len() ==> (#[trigger] all[i]).spec_kind() != TileKind::Zipai
                    && all[i].spec_is_yaojiu(),
            Form::Qinglaotou,
        )
    }
}

/// Ready hand, ready hand on the first turn, and the win within one turn:
/// as the context declares them.
pub fn special_check_lizhi(tilesets: &Tilesets) -> (r: SmallVec)
    ensures
        small_forms(r) == tilesets@.lizhi_forms(),
{
    match tilesets.context.lizhi {
        Lizhi::Undeclared => small_new(),
        Lizhi::Lizhi => {
            let v = small_from_elem(Form::Lizhi, 1);
            proof {
                assert(small_forms(v) =~= seq![Form::Lizhi]);
            }
            v
        },
        Lizhi::LizhiIppatsu => {
            let mut v = small_new();
            small_push(&mut v, Form::Lizhi);
            small_push(&mut v, Form::Ippatsu);
            proof {
                assert(small_forms(v) =~= seq![Form::Lizhi, Form::Ippatsu]);
            }
            v
        },
        Lizhi::DoubleLizhi => {
            let v = small_from_elem(Form::Doublelizhi, 1);
            proof {
                assert(small_forms(v) =~= seq![Form::Doublelizhi]);
            }
            v
        },
        Lizhi::DoubleLizhiIppatsu => {
            let mut v = small_new();
            small_push(&mut v, Form::Doublelizhi);
            small_push(&mut v, Form::Ippatsu);
            proof {
                assert(small_forms(v) =~= seq![Form::Doublelizhi, Form::Ippatsu]);
            }
            v
        },
    }
}

/// The bonus tiles: the tiles of the hand that are bonus tiles, and the red tiles.
pub fn special_check_dora(tilesets: &Tilesets) -> (r: Option<Form>)
    ensures
        r == tilesets@.dora(),
        worth(r).fan <= tilesets@.tiles_without_doras().len() * (tilesets@.doras.len() + 1),
        worth(r).fu == 0,
        worth(r).yiman == 0,
{
    let all = tilesets.tiles_without_doras();
    let doras = tilesets.doras.inner();
    let dl = doras.len();
    let mut n: u128 = 0;
    let mut i: usize = 0;
    proof {
        assert(0 * (dl + 1) == 0);
    }
    while i < all.len()
        invariant
            i <= all@.len(),
            dl == doras@.len(),
            n == dora_count(all@.take(i as int), doras@),
            n <= i * (dl + 1),
        decreases all@.len() - i,
    {
        proof {
            assert(all@.take(i + 1).drop_last() =~= all@.take(i as int));
            lemma_count_key_le(doras@, all@[i as int].key());
            assert((i + 1) * (dl + 1) == i * (dl + 1) + dl + 1) by (nonlinear_arith);
            assert((i + 1) * (dl + 1) <= 0xffff_ffff_ffff_ffff * 0x1_0000_0000_0000_0000)
                by (nonlinear_arith)
                requires
                    i + 1 <= 0xffff_ffff_ffff_ffff,
                    dl + 1 <= 0x1_0000_0000_0000_0000,
            ;
        }
        let t = all[i];
        let c = count_in(doras, t.index());
        n = n + c as u128;
        if t.is_red() {
            n = n + 1;
        }
        i += 1;
    }
    proof {
        assert(all@.take(all@.len() as int) =~= all@);
        lemma_dora_count_le(all@, doras@);
    }
    if n > 0 {
        Some(Form::Dora((n % 0x1_0000_0000) as u32))
    } else {
        None
    }
}

/// The concealed hand with the winning tile, in the order hand, then tile.
pub fn hand_with_last(tilesets: &Tilesets) -> (r: Vec<Tile>)
    ensures
        r@ == tilesets@.hand.push(tilesets@.last),
{
    let hand = tilesets.hand.inner();
    let mut v: Vec<Tile> = Vec::new();
    let mut i: usize = 0;
    while i < hand.len()
        invariant
            i <= hand@.len(),
            v@ == hand@.take(i as int),
        decreases hand@.len() - i,
    {
        v.push(hand[i]);
        i += 1;
        proof {
            assert(v@ =~= hand@.take(i as int));
        }
    }
    proof {
        assert(hand@.take(hand@.len() as int) =~= hand@);
    }
    v.push(tilesets.last);
    v
}

/// Seven pairs: a hand without groups in which each tile occurs exactly twice.
pub fn special_check_qiduizi(tilesets: &Tilesets) -> (r: Option<Form>)
    ensures
        r == tilesets@.qiduizi(),
{
    if tilesets.did_fulou() || tilesets.angangs.len() > 0 {
        return None;
    }
    let tiles = hand_with_last(tilesets);
    let mut i: usize = 0;
    while i < tiles.len()
        invariant
            i <= tiles@.len(),
            tiles@ == tilesets@.hand.push(tilesets@.last),
            forall|j: int| 0 <= j < i ==> count_key(tiles@, (#[trigger] tiles@[j]).key()) == 2,
        decreases tiles@.len() - i,
    {
        if count_in(&tiles, tiles[i].index()) != 2 {
            return None;
        }
        i += 1;
    }
    Some(Form::Qiduizi)
}

/// Self-drawn with a concealed hand.
pub fn special_check_menqianqingzimohu(tilesets: &Tilesets) -> (r: Option<Form>)
    ensures
        r == tilesets@.menqianqingzimohu(),
        plain_worth(r),
{
    if !tilesets.is_zimo {
        return None;
    }
    if !tilesets.is_menqian() {
        return None;
    }
    Some(Form::Menqianqingzimohu)
}

/// All simples: no terminal and no honor in the hand.
pub fn special_check_duanyaojiu(tilesets: &Tilesets) -> (r: Option<Form>)
    ensures
        r == tilesets@.duanyaojiu(),
        plain_worth(r),
{
    let all = tilesets.tiles_without_doras();
    let mut i: usize = 0;
    while i < all.len()
        invariant
            i <= all@.len(),
            all@ == tilesets@.tiles_without_doras(),
            forall|j: int| 0 <= j < i ==> (#[trigger] all@[j]).spec_is_zhongzhang(),
        decreases all@.len() - i,
    {
        if !all[i].is_zhongzhang() {
            return None;
        }
        i += 1;
    }
    Some(Form::Duanyaojiu)
}

/// One suit only, or one suit and honors.
pub fn special_check_hungyise_qingyise(tilesets: &Tilesets) -> (r: Option<Form>)
    ensures
        r == tilesets@.hungyise_qingyise(),
        plain_worth(r),
{
    let all = tilesets.tiles_without_doras();
    let mut has_zipai = false;
    let mut target: Option<TileKind> = None;
    let mut i: usize = 0;
    while i < all.len()
        invariant
            i <= all@.len(),
            all@ == tilesets@.tiles_without_doras(),
            has_zipai == (exists|j: int|
                0 <= j < i && (#[trigger] all@[j]).spec_kind() == TileKind::Zipai),
            match target {
                None => forall|j: int|
                    0 <= j < i ==> (#[trigger] all@[j]).spec_kind() == TileKind::Zipai,
                Some(k) => k != TileKind::Zipai && (exists|j: int|
                    0 <= j < i && (#[trigger] all@[j]).spec_kind() == k) && forall|j: int|
                    0 <= j < i && (#[trigger] all@[j]).spec_kind() != TileKind::Zipai
                        ==> all@[j].spec_kind() == k,
            },
        decreases all@.len() - i,
    {
        let kind = all[i].kind();
        match kind {
            TileKind::Zipai => {
                has_zipai = true;
            },
            _ => {
                match target {
                    None => {
                        target = Some(kind);
                    },
                    Some(k) => {
                        if k != kind {
                            return None;
                        }
                    },
                }
            },
        }
        i += 1;
    }
    match target {
        None => None,
        Some(_) => {
            if has_zipai {
                Some(Form::Hungyise(tilesets.is_menqian()))
            } else {
                Some(Form::Qingyise(tilesets.is_menqian()))
            }
        },
    }
}

/// Terminals and honors only.
pub fn special_check_hunlaotou(tilesets: &Tilesets) -> (r: Option<Form>)
    ensures
        r == tilesets@.hunlaotou(),
        plain_worth(r),
{
    let all = tilesets.tiles_without_doras();
    let mut i: usize = 0;
    while i < all.len()
        invariant
            i <= all@.len(),
            all@ == tilesets@.tiles_without_doras(),
            forall|j: int| 0 <= j < i ==> (#[trigger] all@[j]).spec_is_yaojiu(),
        decreases all@.len() - i,
    {
        if !all[i].is_yaojiu() {
            return None;
        }
        i += 1;
    }
    Some(Form::Hunlaotou)
}

/// All green.
pub fn special_check_luyise(tilesets: &Tilesets) -> (r: Option<Form>)
    ensures
        r == tilesets@.luyise(),
        plain_worth(r),
{
    let all = tilesets.tiles_without_doras();
    let mut i: usize = 0;
    while i < all.len()
        invariant
            i <= all@.len(),
            all@ == tilesets@.tiles_without_doras(),
            forall|j: int| 0 <= j < i ==> (#[trigger] all@[j]).spec_is_green(),
        decreases all@.len() - i,
    {
        if !all[i].is_green() {
            return None;
        }
        i += 1;
    }
    Some(Form::Luyise)
}

/// All honors.
pub fn special_check_ziyise(tilesets: &Tilesets) -> (r: Option<Form>)
    ensures
        r == tilesets@.ziyise(),
        plain_worth(r),
{
    let all = tilesets.tiles_without_doras();
    let mut i: usize = 0;
    while i < all.len()
        invariant
            i <= all@.len(),
            all@ == tilesets@.tiles_without_doras(),
            forall|j: int| 0 <= j < i ==> (#[trigger] all@[j]).spec_kind() == TileKind::Zipai,
        decreases all@.len() - i,
    {
        match all[i].kind() {
            TileKind::Zipai => {},
            _ => {
                return None;
            },
        }
        i += 1;
    }
    Some(Form::Ziyise)
}

/// All terminals.
pub fn special_check_qinglaotou(tilesets: &Tilesets) -> (r: Option<Form>)
    ensures
        r == tilesets@.qinglaotou(),
        plain_worth(r),
{
    let all = tilesets.tiles_without_doras();
    let mut i: usize = 0;
    while i < all.len()
        invariant
            i <= all@.len(),
            all@ == tilesets@.tiles_without_doras(),
            forall|j: int|
                0 <= j < i ==> (#[trigger] all@[j]).spec_kind() != TileKind::Zipai
                    && all@[j].spec_is_yaojiu(),
        decreases all@.len() - i,
    {
        let honor = match all[i].kind() {
            TileKind::Zipai => true,
            _ => false,
        };
        if honor || !all[i].is_yaojiu() {
            return None;
        }
        i += 1;
    }
    Some(Form::Qinglaotou)
}

/// A hand without groups that is `target` with one more of one of its
/// tiles: the pattern is built from whether that tile is the winning
/// tile. The tiles of `target` are tried in order, and the first that fits decides.
pub fn special_check_certadebugrm<F: Fn(bool) -> Form>(
    tilesets: &Tilesets,
    target: Tiles,
    form_constructor: F,
) -> (r: Option<Form>)
    requires
        forall|b: bool| form_constructor.requires((b,)),
    ensures
        match tilesets@.shape(target@) {
            None => r is None,
            Some(g) => r is Some && form_constructor.ensures((g,), r->0),
        },
{
    if tilesets.did_fulou() || tilesets.angangs.len() > 0 {
        return None;
    }
    let hand = Tiles::new(hand_with_last(tilesets));
    let adds = target.clone().into_inner();
    let ghost start = target@;
    let last = tilesets.last;
    let mut work = target;
    let mut i: usize = 0;
    proof {
        lemma_same_tiles(start, start, start);
    }
    while i < adds.len()
        invariant
            i <= adds@.len(),
            start == target@,
            adds@ == start,
            tilesets@.is_plain(),
            hand@ == sort_tiles(tilesets@.hand.push(tilesets@.last)),
            last == tilesets@.last,
            forall|b: bool| form_constructor.requires((b,)),
            same_tiles(work@, start),
            first_completing(start, hand@, 0) == first_completing(start, hand@, i as int),
        decreases adds@.len() - i,
    {
        let add = adds[i];
        let ghost before = work@;
        proof {
            use_type_invariant(&work);
        }
        work.push(add);
        proof {
            let grown = sort_tiles(start.push(add));
            assert(same_tiles(before.push(add), start.push(add))) by {
                assert forall|j: int| 0 <= j < before.push(add).len() implies (
                #[trigger] before.push(add)[j]).key() == start.push(add)[j].key() by {
                    if j < before.len() {
                        assert(before[j].key() == start[j].key());
                    }
                }
            }
            lemma_sort_same_tiles(before.push(add), start.push(add));
            lemma_same_tiles(work@, grown, hand@);
            lemma_same_tiles(grown, work@, hand@);
        }
        if work == hand {
            return Some(form_constructor(add == last));
        }
        match work.position(add) {
            Some(p) => {
                proof {
                    lemma_push_remove(before, add, p as int);
                    lemma_same_tiles(work@.remove(p as int), before, start);
                }
                work.remove(p);
            },
            None => {
                proof {
                    assert(has_key(before.push(add), add.key())) by {
                        assert(before.push(add)[before.len() as int].key() == add.key());
                    }
                    vstd::seq_lib::to_multiset_build(before, add);
                    lemma_has_key_multiset(before.push(add), work@, add.key());
                }
            },
        }
        i += 1;
    }
    None
}

/// The thirteen orphans, as a group.
fn orphan_tiles() -> (r: Tiles)
    ensures
        r@ == orphans(),
{
    let v: Vec<Tile> = vec![
        Tile::Suozi(Order::of_rank(1)),
        Tile::Suozi(Order::of_rank(9)),
        Tile::Wanzi(Order::of_rank(1)),
        Tile::Wanzi(Order::of_rank(9)),
        Tile::Tongzi(Order::of_rank(1)),
        Tile::Tongzi(Order::of_rank(9)),
        Tile::Zipai(Zipai::East),
        Tile::Zipai(Zipai::South),
        Tile::Zipai(Zipai::West),
        Tile::Zipai(Zipai::North),
        Tile::Zipai(Zipai::Bai),
        Tile::Zipai(Zipai::Fa),
        Tile::Zipai(Zipai::Zhong),
    ];
    proof {
        assert(v@ =~= orphans());
        lemma_sort_by_sorted(v@, tile_key());
    }
    Tiles::new(v)
}

/// The rank at place `i` of the nine gates.
fn gate_rank(i: usize) -> (r: u8)
    requires
        i < 13,
    ensures
        r == gate_ranks()[i as int],
        1 <= r <= 9,
{
    if i < 3 {
        1
    } else if i < 10 {
        (i - 1) as u8
    } else {
        9
    }
}

/// The nine gates of a suit, as a group.
fn gate_tiles(suit: u8) -> (r: Tiles)
    requires
        suit < 3,
    ensures
        r@ == gates(suit as int),
{
    let mut v: Vec<Tile> = Vec::new();
    let mut i: usize = 0;
    while i < 13
        invariant
            suit < 3,
            i <= 13,
            v@.len() == i,
            forall|j: int| 0 <= j < i ==> v@[j] == gates(suit as int)[j],
        decreases 13 - i,
    {
        let o = Order::of_rank(gate_rank(i));
        let t = if suit == 0 {
            Tile::Suozi(o)
        } else if suit == 1 {
            Tile::Wanzi(o)
        } else {
            Tile::Tongzi(o)
        };
        v.push(t);
        i += 1;
    }
    proof {
        assert(v@ =~= gates(suit as int));
        assert forall|a: int, b: int| 0 <= a < b < v@.len() implies tile_key()(v@[a]) <= tile_key()(
            v@[b],
        ) by {
            assert(gate_ranks()[a] <= gate_ranks()[b]);
        }
        lemma_sort_by_sorted(v@, tile_key());
    }
    Tiles::new(v)
}

/// Thirteen orphans, with the wait as given.
fn kokushimuso_of(genuine: bool) -> (f: Form)
    ensures
        f == Form::Kokushimuso(genuine),
{
    Form::Kokushimuso(genuine)
}

/// Nine gates, with the wait as given.
fn jiulianbaodeng_of(genuine: bool) -> (f: Form)
    ensures
        f == Form::Jiulianbaodeng(genuine),
{
    Form::Jiulianbaodeng(genuine)
}

/// Thirteen orphans: one of each terminal and honor, and one of them twice.
pub fn special_check_kokushimuso(tilesets: &Tilesets) -> (r: Option<Form>)
    ensures
        r == tilesets@.kokushimuso(),
        plain_worth(r),
{
    special_check_certadebugrm(
        tilesets,
        orphan_tiles(),
        kokushimuso_of,
    )
}

/// Nine gates: 1112345678999 of one suit, and one more tile of it.
pub fn special_check_jiulianbaodeng(tilesets: &Tilesets) -> (r: Option<Form>)
    ensures
        r == tilesets@.jiulianbaodeng(),
        plain_worth(r),
{
    let mut suit: u8 = 0;
    while suit < 3
        invariant
            suit <= 3,
            forall|k: int| 0 <= k < suit ==> tilesets@.shape(#[trigger] gates(k)) is None,
        decreases 3 - suit,
    {
        let found = special_check_certadebugrm(
            tilesets,
            gate_tiles(suit),
            jiulianbaodeng_of,
        );
        if found.is_some() {
            return found;
        }
        suit += 1;
    }
    proof {
        assert(tilesets@.shape(gates(0)) is None);
        assert(tilesets@.shape(gates(1)) is None);
        assert(tilesets@.shape(gates(2)) is None);
    }
    None
}

/// The first tiles of the groups.
pub open spec fn firsts(gs: Seq<Seq<Tile>>) -> Seq<Tile> {
    Seq::new(gs.len(), |i: int| gs[i][0])
}

/// The sum of the value that the tiles have as value tiles.
pub open spec fn fanpai_total(fs: Seq<Tile>, place: Direction, player: Direction) -> int
    decreases fs.len(),
{
    if fs.len() == 0 {
        0
    } else {
        fanpai_total(fs.drop_last(), place, player) + fs.last().spec_num_fan(place, player)
    }
}

/// Whether no tile before place `i` is equal to the tile at place `i`.
pub open spec fn is_first_of_key(fs: Seq<Tile>, i: int) -> bool {
    forall|j: int| 0 <= j < i ==> (#[trigger] fs[j]).key() != fs[i].key()
}

/// The pairs that `c` equal runs make: two for four, one for two or three.
pub open spec fn pair_worth(c: nat) -> nat {
    if c == 4 {
        2
    } else if c == 2 || c == 3 {
        1
    } else {
        0
    }
}

/// The pairs of equal runs among the runs that begin with the tiles `fs`,
/// counted from place `i` on, each tile at its first place.
pub open spec fn matched_pairs(fs: Seq<Tile>, i: int) -> nat
    decreases fs.len() - i,
{
    if i < 0 || i >= fs.len() {
        0
    } else {
        (if is_first_of_key(fs, i) {
            pair_worth(count_key(fs, fs[i].key()))
        } else {
            0
        }) + matched_pairs(fs, i + 1)
    }
}

/// Among at most four runs there are at most two pairs of equal runs.
pub proof fn lemma_matched_pairs_le(fs: Seq<Tile>)
    requires
        fs.len() <= 4,
    ensures
        matched_pairs(fs, 0) <= 2,
{
    reveal_with_fuel(matched_pairs, 6);
    reveal_with_fuel(count_key, 6);
    if fs.len() >= 1 {
        assert(fs.drop_last().len() == fs.len() - 1);
        if fs.len() >= 2 {
            assert(fs.drop_last().drop_last().len() == fs.len() - 2);
            assert(fs.drop_last().last() == fs[fs.len() - 2]);
            if fs.len() >= 3 {
                assert(fs.drop_last().drop_last().drop_last().len() == fs.len() - 3);
                assert(fs.drop_last().drop_last().last() == fs[fs.len() - 3]);
                if fs.len() >= 4 {
                    assert(fs.drop_last().drop_last().drop_last().last() == fs[0]);
                }
            }
        }
    }
}

/// Whether some rank occurs in all three suits among the tiles.
pub open spec fn three_suits(fs: Seq<Tile>) -> bool {
    exists|j: int|
        0 <= j < fs.len() && (#[trigger] fs[j]).spec_kind() == TileKind::Suozi && has_key(
            fs,
            256 + fs[j].key(),
        ) && has_key(fs, 512 + fs[j].key())
}

/// Whether the tiles hold the ranks 1, 4 and 7 of one suit.
pub open spec fn straight(fs: Seq<Tile>) -> bool {
    (has_key(fs, 1) && has_key(fs, 4) && has_key(fs, 7)) || (has_key(fs, 257) && has_key(
        fs,
        260,
    ) && has_key(fs, 263)) || (has_key(fs, 513) && has_key(fs, 516) && has_key(fs, 519))
}

/// Whether the tiles hold all four winds.
pub open spec fn four_winds(fs: Seq<Tile>) -> bool {
    has_key(fs, 768) && has_key(fs, 769) && has_key(fs, 770) && has_key(fs, 771)
}

/// How many of the tiles are dragons.
pub open spec fn count_sanyuan(fs: Seq<Tile>) -> nat
    decreases fs.len(),
{
    if fs.len() == 0 {
        0
    } else {
        count_sanyuan(fs.drop_last()) + if fs.last().spec_is_sanyuan() {
            1nat
        } else {
            0nat
        }
    }
}

/// Whether every tile of the group is a suited tile of rank 2 to 8.
pub open spec fn all_zhongzhang(g: Seq<Tile>) -> bool {
    forall|i: int| 0 <= i < g.len() ==> (#[trigger] g[i]).spec_is_zhongzhang()
}

/// Whether the group holds a suited tile of rank 2 to 8.
pub open spec fn any_zhongzhang(g: Seq<Tile>) -> bool {
    exists|i: int| 0 <= i < g.len() && (#[trigger] g[i]).spec_is_zhongzhang()
}

/// Whether the group holds an honor.
pub open spec fn any_zipai(g: Seq<Tile>) -> bool {
    exists|i: int| 0 <= i < g.len() && (#[trigger] g[i]).spec_kind() == TileKind::Zipai
}

impl AgariView {
    /// Value tiles: one fan for each time that the tile of a triplet or
    /// quad is a value tile.
    pub open spec fn fanpai(self) -> Option<Form> {
        let sum = fanpai_total(
            firsts(self.kezis()),
            self.tilesets.context.place,
            self.tilesets.context.player,
        );
        if sum != 0 {
            Some(Form::Fanpai(sum as u32))
        } else {
            None
        }
    }

    /// A concealed hand of four runs, with a pair that is no honor, won on
    /// a two-sided wait.
    pub open spec fn pinghe(self) -> Option<Form> {
        form_if(
            self.tilesets.is_menqian() && self.shunzis().len() == 4
                && self.quetou[0].spec_kind() != TileKind::Zipai && self.machi
                == MachiKind::Liangmian,
            Form::Pinghe,
        )
    }

    /// One or two pairs of equal runs in a concealed hand.
    pub open spec fn yibeikou_liangbeigou(self) -> Option<Form> {
        let c = matched_pairs(firsts(self.shunzis()), 0);
        if !self.tilesets.is_menqian() || c == 0 {
            None
        } else if c == 1 {
            Some(Form::Yibeikou)
        } else {
            Some(Form::Liangbeigou)
        }
    }

    /// Runs that begin with the same rank in all three suits.
    pub open spec fn sanshoku_dojun(self) -> Option<Form> {
        form_if(
            three_suits(firsts(self.shunzis())),
            Form::Sanshokudojun(self.tilesets.is_menqian()),
        )
    }

    /// Triplets or quads of the same rank in all three suits.
    pub open spec fn sanshoku_doko(self) -> Option<Form> {
        form_if(three_suits(firsts(self.kezis())), Form::Sanshokudoko)
    }

    /// Three concealed triplets, or four; with four, whether the wait was single.
    pub open spec fn sananke_sianke(self) -> Option<Form> {
        if self.ankes().len() == 4 {
            Some(Form::Sianke(self.machi == MachiKind::Danqi))
        } else if self.ankes().len() == 3 {
            Some(Form::Sananke)
        } else {
            None
        }
    }

    /// The runs 123, 456 and 789 of one suit.
    pub open spec fn ikki_tukan(self) -> Option<Form> {
        form_if(straight(firsts(self.shunzis())), Form::Ikkitsukan(self.tilesets.is_menqian()))
    }

    /// Four triplets or quads.
    pub open spec fn duiduihe(self) -> Option<Form> {
        form_if(self.kezis().len() == 4, Form::Duiduihe)
    }

    /// The groups and the pair.
    pub open spec fn parts(self) -> Seq<Seq<Tile>> {
        self.mianzis().push(self.quetou)
    }

    /// A terminal or honor in every group and in the pair, and a simple
    /// tile somewhere: with an honor somewhere the lesser pattern,
    /// without the greater.
    pub open spec fn hunquandaiyaojiu_chunquandaiyaojiu(self) -> Option<Form> {
        let parts = self.parts();
        if exists|i: int| 0 <= i < parts.len() && all_zhongzhang(#[trigger] parts[i]) {
            None
        } else if !(exists|i: int| 0 <= i < parts.len() && any_zhongzhang(#[trigger] parts[i])) {
            None
        } else if exists|i: int| 0 <= i < parts.len() && any_zipai(#[trigger] parts[i]) {
            Some(Form::Hunquandaiyaojiu(self.tilesets.is_menqian()))
        } else {
            Some(Form::Chunquandaiyaojiu(self.tilesets.is_menqian()))
        }
    }

    /// Three quads, or four.
    pub open spec fn sangangzi_sigangzi(self) -> Option<Form> {
        let n = self.tilesets.angangs.len() + self.tilesets.minggangs.len();
        if n == 4 {
            Some(Form::Sigangzi)
        } else if n == 3 {
            Some(Form::Sangangzi)
        } else {
            None
        }
    }

    /// A pair of dragons and at least two triplets or quads of dragons.
    pub open spec fn shousanyuan(self) -> Option<Form> {
        form_if(
            self.quetou[0].spec_is_sanyuan() && count_sanyuan(firsts(self.kezis())) >= 2,
            Form::Shousangen,
        )
    }

    /// Three triplets or quads of dragons.
    pub open spec fn daisanyuan(self) -> Option<Form> {
        form_if(count_sanyuan(firsts(self.kezis())) == 3, Form::Daisangen)
    }

    /// Triplets or quads of all four winds; or of three, with a pair of the fourth.
    pub open spec fn shousushi_daisushi(self) -> Option<Form> {
        let fs = firsts(self.kezis());
        if four_winds(fs) {
            Some(Form::Daisushi)
        } else if self.quetou[0].spec_kind() == TileKind::Zipai && four_winds(
            fs.push(self.quetou[0]),
        ) {
            Some(Form::Shousushi)
        } else {
            None
        }
    }
}

/// Of a hand taken apart: there are four groups beside the pair; triplets,
/// quads and the pair are not empty; runs have three tiles.
pub proof fn lemma_agari_groups(a: AgariView)
    requires
        a.wf(),
    ensures
        a.kezis().len() + a.shunzis().len() == 4,
        a.ankes().len() <= 4,
        a.tilesets.angangs.len() + a.tilesets.minggangs.len() <= 4,
        all_nonempty(a.kezis()),
        all_len(a.shunzis(), 3),
        all_nonempty(a.parts()),
        a.quetou.len() == 2,
{
    let ks = a.kezis();
    let ss = a.shunzis();
    let ts = a.tilesets;
    assert forall|i: int| 0 <= i < ks.len() implies (#[trigger] ks[i]).len() > 0 by {
        let p = ts.pengs.len();
        let m = ts.minggangs.len();
        let r = a.rongming.mingkes().len();
        let h = a.kezis_in_hand.len();
        if i < p {
            assert(ks[i] == ts.pengs[i]);
            assert(is_kezi(ts.pengs[i]));
        } else if i < p + m {
            assert(ks[i] == ts.minggangs[i - p]);
            assert(is_gangzi(ts.minggangs[i - p]));
        } else if i < p + m + r {
            assert(ks[i] == a.rongming.mingkes()[i - p - m]);
        } else if i < p + m + r + h {
            assert(ks[i] == a.kezis_in_hand[i - p - m - r]);
            assert(is_kezi(a.kezis_in_hand[i - p - m - r]));
        } else {
            assert(ks[i] == ts.angangs[i - p - m - r - h]);
            assert(is_gangzi(ts.angangs[i - p - m - r - h]));
        }
    }
    assert forall|i: int| 0 <= i < ss.len() implies (#[trigger] ss[i]).len() == 3 by {
        let c = ts.chis.len();
        let r = a.rongming.mingshuns().len();
        if i < c {
            assert(ss[i] == ts.chis[i]);
            assert(is_shunzi(ts.chis[i]));
        } else if i < c + r {
            assert(ss[i] == a.rongming.mingshuns()[i - c]);
        } else {
            assert(ss[i] == a.shunzis_in_hand[i - c - r]);
            assert(is_shunzi(a.shunzis_in_hand[i - c - r]));
        }
    }
    let ps = a.parts();
    assert forall|i: int| 0 <= i < ps.len() implies (#[trigger] ps[i]).len() > 0 by {
        if i < ks.len() {
            assert(ps[i] == ks[i]);
        } else if i < ks.len() + ss.len() {
            assert(ps[i] == ss[i - ks.len()]);
        } else {
            assert(ps[i] == a.quetou);
        }
    }
}

/// The first tiles of the groups.
pub fn first_tiles(groups: &Vec<Tiles>) -> (r: Vec<Tile>)
    requires
        all_nonempty(views(groups@)),
    ensures
        r@ == firsts(views(groups@)),
{
    let mut out: Vec<Tile> = Vec::new();
    let mut i: usize = 0;
    while i < groups.len()
        invariant
            all_nonempty(views(groups@)),
            i <= groups@.len(),
            out@.len() == i,
            forall|j: int| 0 <= j < i ==> out@[j] == (#[trigger] views(groups@)[j])[0],
        decreases groups@.len() - i,
    {
        proof {
            assert(views(groups@)[i as int].len() > 0);
        }
        out.push(groups[i].first());
        i += 1;
    }
    proof {
        assert(out@ =~= firsts(views(groups@)));
    }
    out
}

/// The tiles of the triplets and quads of a hand: of each the first.
pub fn kezi_firsts(agari: &AgariTilesets) -> (r: Vec<Tile>)
    ensures
        r@ == firsts(agari@.kezis()),
        r@.len() <= 4,
{
    let kezis = agari.kezis();
    proof {
        lemma_agari_groups(agari@);
    }
    first_tiles(&kezis)
}

/// The tiles with which the runs of a hand begin.
pub fn shunzi_firsts(agari: &AgariTilesets) -> (r: Vec<Tile>)
    ensures
        r@ == firsts(agari@.shunzis()),
        r@.len() <= 4,
{
    let shunzis = agari.shunzis();
    proof {
        lemma_agari_groups(agari@);
        assert forall|i: int| 0 <= i < views(shunzis@).len() implies (#[trigger] views(
            shunzis@,
        )[i]).len() > 0 by {
            assert(views(shunzis@)[i].len() == 3);
        }
    }
    first_tiles(&shunzis)
}

/// Whether the tiles hold the tile with key `k`.
pub fn vec_has_key(v: &Vec<Tile>, k: u16) -> (r: bool)
    ensures
        r == has_key(v@, k as int),
{
    let mut i: usize = 0;
    while i < v.len()
        invariant
            i <= v@.len(),
            forall|j: int| 0 <= j < i ==> (#[trigger] v@[j]).key() != k,
        decreases v@.len() - i,
    {
        if v[i].index() == k {
            return true;
        }
        i += 1;
    }
    false
}

/// Whether some rank occurs in all three suits among the tiles.
pub fn has_three_suits(fs: &Vec<Tile>) -> (r: bool)
    ensures
        r == three_suits(fs@),
{
    let mut i: usize = 0;
    while i < fs.len()
        invariant
            i <= fs@.len(),
            forall|j: int|
                0 <= j < i ==> !((#[trigger] fs@[j]).spec_kind() == TileKind::Suozi && has_key(
                    fs@,
                    256 + fs@[j].key(),
                ) && has_key(fs@, 512 + fs@[j].key())),
        decreases fs@.len() - i,
    {
        let t = fs[i];
        let k: u16 = t.index();
        let bamboo = match t.kind() {
            TileKind::Suozi => true,
            _ => false,
        };
        if bamboo && vec_has_key(fs, 256 + k) && vec_has_key(fs, 512 + k) {
            return true;
        }
        i += 1;
    }
    false
}

/// How many of the tiles are dragons.
pub fn num_sanyuan(fs: &Vec<Tile>) -> (r: usize)
    ensures
        r == count_sanyuan(fs@),
        r <= fs@.len(),
{
    let mut n: usize = 0;
    let mut i: usize = 0;
    while i < fs.len()
        invariant
            i <= fs@.len(),
            n <= i,
            n == count_sanyuan(fs@.take(i as int)),
        decreases fs@.len() - i,
    {
        proof {
            assert(fs@.take(i + 1).drop_last() =~= fs@.take(i as int));
        }
        if fs[i].is_sanyuan() {
            n += 1;
        }
        i += 1;
    }
    proof {
        assert(fs@.take(fs@.len() as int) =~= fs@);
    }
    n
}

/// Value tiles: one fan for each time that the tile of a triplet or quad
/// is the round wind, the seat wind or a dragon.
pub fn check_fanpai(agari: &AgariTilesets) -> (r: Option<Form>)
    ensures
        r == agari@.fanpai(),
        plain_worth(r),
{
    let fs = kezi_firsts(agari);
    let ctx = agari.context();
    let mut sum: u32 = 0;
    let mut i: usize = 0;
    while i < fs.len()
        invariant
            i <= fs@.len(),
            fs@.len() <= 4,
            sum <= 2 * i,
            sum == fanpai_total(fs@.take(i as int), ctx.place, ctx.player),
        decreases fs@.len() - i,
    {
        proof {
            assert(fs@.take(i + 1).drop_last() =~= fs@.take(i as int));
        }
        sum += fs[i].num_fan(ctx);
        i += 1;
    }
    proof {
        assert(fs@.take(fs@.len() as int) =~= fs@);
    }
    if sum != 0 {
        Some(Form::Fanpai(sum))
    } else {
        None
    }
}

/// A concealed hand of four runs, with a pair that is no honor, won on a
/// two-sided wait.
pub fn check_pinghe(agari: &AgariTilesets) -> (r: Option<Form>)
    ensures
        r == agari@.pinghe(),
        plain_worth(r),
{
    if !agari.is_menqian() {
        return None;
    }
    let shunzis = agari.shunzis();
    if shunzis.len() != 4 {
        return None;
    }
    match agari.quetou().first().kind() {
        TileKind::Zipai => {
            return None;
        },
        _ => {},
    }
    match agari.machi() {
        MachiKind::Liangmian => Some(Form::Pinghe),
        _ => None,
    }
}

/// One or two pairs of equal runs in a concealed hand.
pub fn check_yibeikou_liangbeigou(agari: &AgariTilesets) -> (r: Option<Form>)
    ensures
        r == agari@.yibeikou_liangbeigou(),
        matched_pairs(firsts(agari@.shunzis()), 0) <= 2,
        plain_worth(r),
{
    let fs = shunzi_firsts(agari);
    proof {
        lemma_matched_pairs_le(fs@);
    }
    if !agari.is_menqian() {
        return None;
    }
    let mut cnt: usize = 0;
    let mut i: usize = 0;
    while i < fs.len()
        invariant
            i <= fs@.len(),
            cnt <= 2 * i,
            fs@.len() <= 4,
            matched_pairs(fs@, 0) == cnt + matched_pairs(fs@, i as int),
        decreases fs@.len() - i,
    {
        let k: u16 = fs[i].index();
        let mut first = true;
        let mut j: usize = 0;
        while j < i
            invariant
                j <= i < fs@.len(),
                k == fs@[i as int].key(),
                first == (forall|x: int| 0 <= x < j ==> (#[trigger] fs@[x]).key() != k),
            decreases i - j,
        {
            if fs[j].index() == k {
                first = false;
            }
            j += 1;
        }
        if first {
            let c = count_in(&fs, k);
            if c == 4 {
                cnt += 2;
            } else if c == 2 || c == 3 {
                cnt += 1;
            }
        }
        i += 1;
    }
    if cnt == 0 {
        None
    } else if cnt == 1 {
        Some(Form::Yibeikou)
    } else {
        Some(Form::Liangbeigou)
    }
}

/// Runs that begin with the same rank in all three suits.
pub fn check_sanshoku_dojun(agari: &AgariTilesets) -> (r: Option<Form>)
    ensures
        r == agari@.sanshoku_dojun(),
        plain_worth(r),
{
    let fs = shunzi_firsts(agari);
    if !has_three_suits(&fs) {
        return None;
    }
    Some(Form::Sanshokudojun(agari.is_menqian()))
}

/// Triplets or quads of the same rank in all three suits.
pub fn check_sanshoku_doko(agari: &AgariTilesets) -> (r: Option<Form>)
    ensures
        r == agari@.sanshoku_doko(),
        plain_worth(r),
{
    let fs = kezi_firsts(agari);
    if !has_three_suits(&fs) {
        return None;
    }
    Some(Form::Sanshokudoko)
}

/// Three concealed triplets, or four.
pub fn check_sananke_sianke(agari: &AgariTilesets) -> (r: Option<Form>)
    ensures
        r == agari@.sananke_sianke(),
        plain_worth(r),
{
    let count = agari.ankes().len();
    if count == 4 {
        let single = match agari.machi() {
            MachiKind::Danqi => true,
            _ => false,
        };
        Some(Form::Sianke(single))
    } else if count == 3 {
        Some(Form::Sananke)
    } else {
        None
    }
}

/// The runs 123, 456 and 789 of one suit.
pub fn check_ikki_tukan(agari: &AgariTilesets) -> (r: Option<Form>)
    ensures
        r == agari@.ikki_tukan(),
        plain_worth(r),
{
    let fs = shunzi_firsts(agari);
    let does_match = (vec_has_key(&fs, 1) && vec_has_key(&fs, 4) && vec_has_key(&fs, 7)) || (
    vec_has_key(&fs, 257) && vec_has_key(&fs, 260) && vec_has_key(&fs, 263)) || (vec_has_key(
        &fs,
        513,
    ) && vec_has_key(&fs, 516) && vec_has_key(&fs, 519));
    if !does_match {
        return None;
    }
    Some(Form::Ikkitsukan(agari.is_menqian()))
}

/// Four triplets or quads.
pub fn check_duiduihe(agari: &AgariTilesets) -> (r: Option<Form>)
    ensures
        r == agari@.duiduihe(),
        plain_worth(r),
{
    let count = agari.kezis().len();
    if count != 4 {
        return None;
    }
    Some(Form::Duiduihe)
}

/// What a group has to say on the patterns of terminals: whether all its
/// tiles are simple, whether it holds an honor, whether it holds a simple tile.
fn survey(tiles: &Tiles) -> (r: (bool, bool, bool))
    ensures
        r.0 == all_zhongzhang(tiles@),
        r.1 == any_zipai(tiles@),
        r.2 == any_zhongzhang(tiles@),
{
    let mut all = true;
    let mut honor = false;
    let mut simple = false;
    let mut i: usize = 0;
    while i < tiles.len()
        invariant
            i <= tiles@.len(),
            all == (forall|j: int| 0 <= j < i ==> (#[trigger] tiles@[j]).spec_is_zhongzhang()),
            honor == (exists|j: int|
                0 <= j < i && (#[trigger] tiles@[j]).spec_kind() == TileKind::Zipai),
            simple == (exists|j: int| 0 <= j < i && (#[trigger] tiles@[j]).spec_is_zhongzhang()),
        decreases tiles@.len() - i,
    {
        let t = tiles.get(i);
        if t.is_zhongzhang() {
            simple = true;
        } else {
            all = false;
        }
        match t.kind() {
            TileKind::Zipai => {
                honor = true;
            },
            _ => {},
        }
        i += 1;
    }
    (all, honor, simple)
}

/// A terminal or honor in every group and in the pair, and a simple tile somewhere.
pub fn check_hunquandaiyaojiu_chunquandaiyaojiu(agari: &AgariTilesets) -> (r: Option<Form>)
    ensures
        r == agari@.hunquandaiyaojiu_chunquandaiyaojiu(),
        plain_worth(r),
{
    let mut parts = agari.mianzis();
    parts.push(agari.quetou().clone());
    proof {
        assert(views(parts@) =~= agari@.parts());
    }
    let mut has_zipai = false;
    let mut has_zhongzhang = false;
    let mut i: usize = 0;
    while i < parts.len()
        invariant
            i <= parts@.len(),
            views(parts@) == agari@.parts(),
            forall|j: int| 0 <= j < i ==> !all_zhongzhang(#[trigger] views(parts@)[j]),
            has_zipai == (exists|j: int| 0 <= j < i && any_zipai(#[trigger] views(parts@)[j])),
            has_zhongzhang == (exists|j: int|
                0 <= j < i && any_zhongzhang(#[trigger] views(parts@)[j])),
        decreases parts@.len() - i,
    {
        proof {
            assert(views(parts@)[i as int] == parts@[i as int]@);
        }
        let (all, honor, simple) = survey(&parts[i]);
        if all {
            return None;
        }
        has_zipai = has_zipai || honor;
        has_zhongzhang = has_zhongzhang || simple;
        i += 1;
    }
    if !has_zhongzhang {
        None
    } else if has_zipai {
        Some(Form::Hunquandaiyaojiu(agari.is_menqian()))
    } else {
        Some(Form::Chunquandaiyaojiu(agari.is_menqian()))
    }
}

/// Three quads, or four.
pub fn check_sangangzi_sigangzi(agari: &AgariTilesets) -> (r: Option<Form>)
    ensures
        r == agari@.sangangzi_sigangzi(),
        plain_worth(r),
{
    let a = agari.angangs().len();
    let m = agari.minggangs().len();
    proof {
        lemma_agari_groups(agari@);
    }
    let n = a + m;
    if n == 4 {
        Some(Form::Sigangzi)
    } else if n == 3 {
        Some(Form::Sangangzi)
    } else {
        None
    }
}

/// A pair of dragons and at least two triplets or quads of dragons.
pub fn check_shousanyuan(agari: &AgariTilesets) -> (r: Option<Form>)
    ensures
        r == agari@.shousanyuan(),
        plain_worth(r),
{
    if !agari.quetou().first().is_sanyuan() {
        return None;
    }
    let fs = kezi_firsts(agari);
    if num_sanyuan(&fs) >= 2 {
        Some(Form::Shousangen)
    } else {
        None
    }
}

/// Three triplets or quads of dragons.
pub fn check_daisanyuan(agari: &AgariTilesets) -> (r: Option<Form>)
    ensures
        r == agari@.daisanyuan(),
        plain_worth(r),
{
    let fs = kezi_firsts(agari);
    if num_sanyuan(&fs) == 3 {
        Some(Form::Daisangen)
    } else {
        None
    }
}

/// Whether the tiles hold all four winds.
fn has_four_winds(fs: &Vec<Tile>) -> (r: bool)
    ensures
        r == four_winds(fs@),
{
    vec_has_key(fs, 768) && vec_has_key(fs, 769) && vec_has_key(fs, 770) && vec_has_key(fs, 771)
}

/// Triplets or quads of all four winds; or of three, with a pair of the fourth.
pub fn check_shousushi_daisushi(agari: &AgariTilesets) -> (r: Option<Form>)
    ensures
        r == agari@.shousushi_daisushi(),
        plain_worth(r),
{
    let mut fs = kezi_firsts(agari);
    if has_four_winds(&fs) {
        return Some(Form::Daisushi);
    }
    let q = agari.quetou().first();
    match q.kind() {
        TileKind::Zipai => {},
        _ => {
            return None;
        },
    }
    fs.push(q);
    if has_four_winds(&fs) {
        Some(Form::Shousushi)
    } else {
        None
    }
}

} // verus!
