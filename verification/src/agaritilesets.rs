//! Winning hands taken apart: the pair, the triplets and the runs of a
//! hand, the wait that the winning tile filled, and the group that a
//! claimed winning tile opened.

use crate::context::Context;
use crate::sorting::lemma_sort_by_sorted;
use crate::tile::Tile;
use crate::tiles::{
    all_same, all_valid, has_key, is_duizi, is_gangzi, is_kezi, is_shunzi, is_sorted,
    lemma_has_key_multiset, tile_key, tiles_text, Tiles,
};
use crate::tilesets::{clone_groups, views, Tilesets, TilesetsView};
use crate::utils::two_to;
use core::ops::Range;
use vstd::multiset::Multiset;
use vstd::prelude::*;

verus! {

/// The shape of the wait that the winning tile filled.
#[derive(Debug, Clone, Copy, PartialEq, Eq, Structural)]
pub enum MachiKind {
    /// Two-sided: 23 waiting for 1 or 4.
    Liangmian,
    /// Two pairs, either of which becomes a triplet.
    Shuangpeng,
    /// Edge: 12 waiting for 3, or 89 waiting for 7.
    Bianzhang,
    /// Closed: 24 waiting for 3.
    Qianzhang,
    /// Single: the pair was missing its second tile.
    Danqi,
    /// Four in a row, either end of which becomes the pair.
    Yandan,
}

/// The group that a claimed winning tile completed, which counts as open.
#[derive(Debug)]
pub enum Rongming {
    /// A triplet or quad.
    Mingke(Tiles),
    /// A run.
    Mingshun(Tiles),
    /// No group: the tile was drawn, or it completed the pair.
    Neither,
}

/// What a `Rongming` holds, as plain values.
pub enum RongmingView {
    Mingke(Seq<Tile>),
    Mingshun(Seq<Tile>),
    Neither,
}

impl MachiKind {
    /// The wait's name.
    pub open spec fn text(self) -> Seq<char> {
        match self {
            MachiKind::Liangmian => "両面"@,
            MachiKind::Shuangpeng => "シャンポン"@,
            MachiKind::Bianzhang => "ペンチャン"@,
            MachiKind::Qianzhang => "カンチャン"@,
            MachiKind::Danqi => "単騎"@,
            MachiKind::Yandan => "ノベタン"@,
        }
    }

    /// The wait's name.
    pub fn as_str(self) -> (r: &'static str)
        ensures
            r@ == self.text(),
    {
        match self {
            MachiKind::Liangmian => "両面",
            MachiKind::Shuangpeng => "シャンポン",
            MachiKind::Bianzhang => "ペンチャン",
            MachiKind::Qianzhang => "カンチャン",
            MachiKind::Danqi => "単騎",
            MachiKind::Yandan => "ノベタン",
        }
    }

    /// The wait's name.
    pub fn to_string(&self) -> (r: String)
        ensures
            r@ == self.text(),
    {
        String::from_str(self.as_str())
    }
}

impl View for Rongming {
    type V = RongmingView;

    open spec fn view(&self) -> RongmingView {
        match self {
            Rongming::Mingke(t) => RongmingView::Mingke(t@),
            Rongming::Mingshun(t) => RongmingView::Mingshun(t@),
            Rongming::Neither => RongmingView::Neither,
        }
    }
}

impl RongmingView {
    /// The triplet or quad, as a list of none or one.
    pub open spec fn mingkes(self) -> Seq<Seq<Tile>> {
        match self {
            RongmingView::Mingke(t) => seq![t],
            _ => Seq::empty(),
        }
    }

    /// The run, as a list of none or one.
    pub open spec fn mingshuns(self) -> Seq<Seq<Tile>> {
        match self {
            RongmingView::Mingshun(t) => seq![t],
            _ => Seq::empty(),
        }
    }

    /// The tiles of the group, none where there is no group.
    pub open spec fn tiles(self) -> Seq<Tile> {
        match self {
            RongmingView::Mingke(t) => t,
            RongmingView::Mingshun(t) => t,
            RongmingView::Neither => Seq::empty(),
        }
    }
}

impl Rongming {
    /// The triplet or quad, if the group is one.
    pub fn mingke(&self) -> (r: Option<&Tiles>)
        ensures
            match r {
                Some(t) => self@ == RongmingView::Mingke(t@),
                None => !(self@ is Mingke),
            },
    {
        match self {
            Rongming::Mingke(tiles) => Some(tiles),
            Rongming::Mingshun(_) => None,
            Rongming::Neither => None,
        }
    }

    /// The run, if the group is one.
    pub fn mingshun(&self) -> (r: Option<&Tiles>)
        ensures
            match r {
                Some(t) => self@ == RongmingView::Mingshun(t@),
                None => !(self@ is Mingshun),
            },
    {
        match self {
            Rongming::Mingke(_) => None,
            Rongming::Mingshun(tiles) => Some(tiles),
            Rongming::Neither => None,
        }
    }

    /// The triplet or quad, as a list of none or one.
    pub fn iter_mingke(&self) -> (r: Vec<Tiles>)
        ensures
            views(r@) == self@.mingkes(),
    {
        let mut out: Vec<Tiles> = Vec::new();
        match self.mingke() {
            Some(t) => {
                out.push(t.clone());
            },
            None => {},
        }
        proof {
            assert(views(out@) =~= self@.mingkes());
        }
        out
    }

    /// The run, as a list of none or one.
    pub fn iter_mingshun(&self) -> (r: Vec<Tiles>)
        ensures
            views(r@) == self@.mingshuns(),
    {
        let mut out: Vec<Tiles> = Vec::new();
        match self.mingshun() {
            Some(t) => {
                out.push(t.clone());
            },
            None => {},
        }
        proof {
            assert(views(out@) =~= self@.mingshuns());
        }
        out
    }
}

impl PartialEq for Rongming {
    fn eq(&self, other: &Rongming) -> (r: bool) {
        match (self, other) {
            (Rongming::Mingke(a), Rongming::Mingke(b)) => a == b,
            (Rongming::Mingshun(a), Rongming::Mingshun(b)) => a == b,
            (Rongming::Neither, Rongming::Neither) => true,
            _ => false,
        }
    }
}

impl vstd::std_specs::cmp::PartialEqSpecImpl for Rongming {
    open spec fn obeys_eq_spec() -> bool {
        true
    }

    open spec fn eq_spec(&self, other: &Rongming) -> bool {
        match (self@, other@) {
            (RongmingView::Mingke(a), RongmingView::Mingke(b)) => crate::tiles::same_tiles(a, b),
            (RongmingView::Mingshun(a), RongmingView::Mingshun(b)) => crate::tiles::same_tiles(
                a,
                b,
            ),
            (RongmingView::Neither, RongmingView::Neither) => true,
            _ => false,
        }
    }
}

impl Eq for Rongming {

}

impl Clone for Rongming {
    fn clone(&self) -> (r: Rongming)
        ensures
            r@ == self@,
    {
        match self {
            Rongming::Mingke(t) => Rongming::Mingke(t.clone()),
            Rongming::Mingshun(t) => Rongming::Mingshun(t.clone()),
            Rongming::Neither => Rongming::Neither,
        }
    }
}

/// Whether the ranges cut `s` into its maximal stretches of equal tiles,
/// from left to right. An empty `s` has the one empty range.
pub open spec fn is_run_partition(s: Seq<Tile>, r: Seq<Range<usize>>) -> bool {
    &&& r.len() >= 1
    &&& r[0].start == 0
    &&& r.last().end == s.len()
    &&& forall|i: int| 0 <= i < r.len() - 1 ==> (#[trigger] r[i]).end == r[i + 1].start
    &&& forall|i: int|
        0 <= i < r.len() ==> (#[trigger] r[i]).start <= r[i].end && (s.len() > 0 ==> r[i].start
            < r[i].end)
    &&& forall|i: int, j: int|
        0 <= i < r.len() && r[i].start <= j < r[i].end ==> (#[trigger] s[j]).key() == s[(
        #[trigger] r[i]).start as int].key()
    &&& forall|i: int|
        1 <= i < r.len() ==> s[r[i].start - 1].key() != s[(#[trigger] r[i]).start as int].key()
}

/// Whether a maximal stretch of equal tiles begins at `i`.
pub open spec fn is_run_start(s: Seq<Tile>, i: int) -> bool {
    0 <= i < s.len() && (i == 0 || s[i - 1].key() != s[i].key())
}

/// Whether the `m` tiles from `i` on are there and are equal tiles.
pub open spec fn run_holds(s: Seq<Tile>, i: int, m: int) -> bool {
    i + m <= s.len() && forall|j: int| i <= j < i + m ==> (#[trigger] s[j]).key() == s[i].key()
}

/// Whether a maximal stretch of at least `m` equal tiles begins at `i`.
pub open spec fn is_group_start(s: Seq<Tile>, i: int, m: int) -> bool {
    is_run_start(s, i) && run_holds(s, i, m)
}

/// The places below `n` at which a maximal stretch of at least `m` equal
/// tiles begins, in rising order.
pub open spec fn group_starts(s: Seq<Tile>, m: int, n: int) -> Seq<int>
    decreases n,
{
    if n <= 0 {
        Seq::empty()
    } else {
        let p = group_starts(s, m, n - 1);
        if is_group_start(s, n - 1, m) {
            p.push(n - 1)
        } else {
            p
        }
    }
}

/// `s` cut in two: the `m` tiles from `i` on, and the others.
pub open spec fn split_off(s: Seq<Tile>, i: int, m: int) -> (Seq<Tile>, Seq<Tile>) {
    (s.subrange(i, i + m), s.subrange(0, i) + s.subrange(i + m, s.len() as int))
}

/// Every way to take a pair out of `s`: one for each tile that occurs at
/// least twice, in rising order, each with the tiles that are left.
pub open spec fn quetou_candidates(s: Seq<Tile>) -> Seq<(Seq<Tile>, Seq<Tile>)> {
    let starts = group_starts(s, 2, s.len() as int);
    Seq::new(starts.len(), |k: int| split_off(s, starts[k], 2))
}

/// Group starts rise, each has its `m` tiles, and two of them are at
/// least `m` apart.
pub proof fn lemma_group_starts(s: Seq<Tile>, m: int, n: int)
    requires
        m >= 1,
        n <= s.len(),
    ensures
        forall|k: int|
            0 <= k < group_starts(s, m, n).len() ==> 0 <= (#[trigger] group_starts(
                s,
                m,
                n,
            )[k]) < n && is_group_start(s, group_starts(s, m, n)[k], m),
        forall|k: int, l: int|
            0 <= k < l < group_starts(s, m, n).len() ==> (#[trigger] group_starts(s, m, n)[k])
                + m <= (#[trigger] group_starts(s, m, n)[l]),
        forall|k: int|
            0 <= k < group_starts(s, m, n).len() ==> m * k <= #[trigger] group_starts(
                s,
                m,
                n,
            )[k],
    decreases n,
{
    if n > 0 {
        lemma_group_starts(s, m, n - 1);
        let p = group_starts(s, m, n - 1);
        let c = group_starts(s, m, n);
        if is_group_start(s, n - 1, m) {
            assert forall|k: int, l: int| 0 <= k < l < c.len() implies (#[trigger] c[k]) + m <= (
            #[trigger] c[l]) by {
                if l == c.len() - 1 {
                    let x = p[k];
                    assert(is_group_start(s, x, m));
                    if x + m > n - 1 {
                        assert(s[n - 2].key() == s[x].key());
                        assert(s[n - 1].key() == s[x].key());
                    }
                } else {
                    assert(c[k] == p[k] && c[l] == p[l]);
                }
            }
            assert forall|k: int| 0 <= k < c.len() implies m * k <= #[trigger] c[k] by {
                if k < p.len() {
                    assert(c[k] == p[k]);
                } else if k == 0 {
                } else {
                    assert(c[k - 1] + m <= c[k]);
                    assert(c[k - 1] == p[k - 1]);
                    assert(m * k == m * (k - 1) + m) by (nonlinear_arith);
                }
            }
        }
    }
}

/// A sequence has at most a third as many triplet starts as tiles, and at
/// most half as many pair starts.
pub proof fn lemma_group_starts_len(s: Seq<Tile>, m: int)
    requires
        m >= 1,
    ensures
        m * group_starts(s, m, s.len() as int).len() <= s.len(),
{
    let c = group_starts(s, m, s.len() as int);
    lemma_group_starts(s, m, s.len() as int);
    if c.len() > 0 {
        let k = c.len() - 1;
        assert(is_group_start(s, c[k], m));
        assert(m * (k + 1) == m * k + m) by (nonlinear_arith);
    } else {
        assert(m * 0 == 0);
    }
}

/// Taking a stretch out of a sequence keeps every tile: those taken and
/// those left are the tiles of the sequence.
pub proof fn lemma_split_off(s: Seq<Tile>, i: int, m: int)
    requires
        0 <= i,
        0 <= m,
        i + m <= s.len(),
    ensures
        (split_off(s, i, m).0 + split_off(s, i, m).1).to_multiset() == s.to_multiset(),
        split_off(s, i, m).0.len() == m,
        split_off(s, i, m).1.len() == s.len() - m,
        is_sorted(s) ==> is_sorted(split_off(s, i, m).0) && is_sorted(split_off(s, i, m).1),
        all_valid(s) ==> all_valid(split_off(s, i, m).0) && all_valid(split_off(s, i, m).1),
{
    let a = s.subrange(0, i);
    let b = s.subrange(i, i + m);
    let c = s.subrange(i + m, s.len() as int);
    assert(s =~= a + b + c);
    vstd::seq_lib::lemma_multiset_commutative(a, b);
    vstd::seq_lib::lemma_multiset_commutative(a + b, c);
    vstd::seq_lib::lemma_multiset_commutative(a, c);
    vstd::seq_lib::lemma_multiset_commutative(b, a + c);
    assert((b + (a + c)).to_multiset() =~= (a + b + c).to_multiset());
    let r = a + c;
    if is_sorted(s) {
        assert forall|x: int, y: int| 0 <= x < y < r.len() implies tile_key()(r[x]) <= tile_key()(
            r[y],
        ) by {
            let xi = if x < i { x } else { x + m };
            let yi = if y < i { y } else { y + m };
            assert(r[x] == s[xi] && r[y] == s[yi]);
        }
        assert forall|x: int, y: int| 0 <= x < y < b.len() implies tile_key()(b[x]) <= tile_key()(
            b[y],
        ) by {
            assert(b[x] == s[x + i] && b[y] == s[y + i]);
        }
    }
    if all_valid(s) {
        assert forall|x: int| 0 <= x < r.len() implies (#[trigger] r[x]).valid() by {
            let xi = if x < i { x } else { x + m };
            assert(r[x] == s[xi]);
        }
        assert forall|x: int| 0 <= x < b.len() implies (#[trigger] b[x]).valid() by {
            assert(b[x] == s[x + i]);
        }
    }
}

/// Whether bit `j` of `set` is one.
pub open spec fn bit(set: int, j: nat) -> bool
    decreases j,
{
    if j == 0 {
        set % 2 == 1
    } else {
        bit(set / 2, (j - 1) as nat)
    }
}

/// The triplets taken out of `s` at those of the places `starts[j..]`
/// whose bit in `set` is one, in rising order, and the tiles that are left.
pub open spec fn kezi_split(s: Seq<Tile>, starts: Seq<int>, set: int, j: int) -> (
    Seq<Seq<Tile>>,
    Seq<Tile>,
)
    decreases starts.len() - j,
{
    if j < 0 || j >= starts.len() {
        (Seq::empty(), s)
    } else {
        let (c, r) = kezi_split(s, starts, set, j + 1);
        if bit(set, j as nat) {
            (seq![split_off(r, starts[j], 3).0] + c, split_off(r, starts[j], 3).1)
        } else {
            (c, r)
        }
    }
}

/// Every way to take triplets out of `s`: for each set of the tiles that
/// occur at least three times, the sets counted up as bit masks, the
/// triplets of the tiles in the set and the tiles that are left.
pub open spec fn kezi_candidates(s: Seq<Tile>) -> Seq<(Seq<Seq<Tile>>, Seq<Tile>)> {
    let starts = group_starts(s, 3, s.len() as int);
    Seq::new(two_to(starts.len()) as nat, |set: int| kezi_split(s, starts, set, 0))
}

/// Whether the places `starts` are triplet starts of `s`, rising and apart.
pub open spec fn starts_fit(s: Seq<Tile>, starts: Seq<int>) -> bool {
    &&& forall|k: int|
        0 <= k < starts.len() ==> 0 <= (#[trigger] starts[k]) && is_group_start(s, starts[k], 3)
    &&& forall|k: int, l: int|
        0 <= k < l < starts.len() ==> (#[trigger] starts[k]) + 3 <= (#[trigger] starts[l])
}

/// The part of `s` that taking triplets out at `starts[j..]` leaves untouched.
pub open spec fn untouched(s: Seq<Tile>, starts: Seq<int>, j: int) -> int {
    if 0 <= j < starts.len() {
        starts[j]
    } else {
        s.len() as int
    }
}

/// Taking triplets out keeps every tile, takes whole triplets, and leaves
/// the tiles before the first place alone.
pub proof fn lemma_kezi_split(s: Seq<Tile>, starts: Seq<int>, set: int, j: int)
    requires
        starts_fit(s, starts),
        0 <= j <= starts.len(),
    ensures
        ({
            let (c, r) = kezi_split(s, starts, set, j);
            &&& r.len() >= untouched(s, starts, j)
            &&& r.take(untouched(s, starts, j)) == s.take(untouched(s, starts, j))
            &&& r.len() + 3 * c.len() == s.len()
            &&& c.len() <= starts.len() - j
            &&& forall|i: int| 0 <= i < c.len() ==> is_kezi(#[trigger] c[i])
            &&& (c.flatten() + r).to_multiset() == s.to_multiset()
            &&& all_valid(s) ==> all_valid(r) && forall|i: int|
                0 <= i < c.len() ==> all_valid(#[trigger] c[i])
            &&& is_sorted(s) ==> is_sorted(r) && forall|i: int|
                0 <= i < c.len() ==> is_sorted(#[trigger] c[i])
        }),
    decreases starts.len() - j,
{
    if j >= starts.len() {
        assert(s.take(s.len() as int) =~= s);
        assert(Seq::<Seq<Tile>>::empty().flatten() =~= Seq::<Tile>::empty());
        assert(Seq::<Tile>::empty() + s =~= s);
    } else {
        lemma_kezi_split(s, starts, set, j + 1);
        let (c, r) = kezi_split(s, starts, set, j + 1);
        let st = starts[j];
        let b = untouched(s, starts, j + 1);
        assert(is_group_start(s, st, 3));
        assert(st + 3 <= b) by {
            if j + 1 < starts.len() {
                assert(starts[j] + 3 <= starts[j + 1]);
            }
        }
        assert(r.take(st) =~= s.take(st)) by {
            assert(r.take(b).take(st) =~= r.take(st));
            assert(s.take(b).take(st) =~= s.take(st));
        }
        if bit(set, j as nat) {
            let g = split_off(r, st, 3).0;
            let rest = split_off(r, st, 3).1;
            lemma_split_off(r, st, 3);
            assert(rest.take(st) =~= r.take(st));
            assert forall|i: int| 0 <= i < 3 implies g[i] == s[st + i] by {
                assert(r.take(b)[st + i] == s.take(b)[st + i]);
            }
            assert(is_kezi(g)) by {
                assert forall|i: int| 0 <= i < g.len() implies (#[trigger] g[i]).key()
                    == g[0].key() by {
                    assert(g[i] == s[st + i]);
                    assert(g[0] == s[st + 0]);
                }
            }
            let c2 = seq![g] + c;
            assert(c2.flatten() =~= g + c.flatten()) by {
                vstd::seq_lib::lemma_flatten_concat(seq![g], c);
                seq![g].lemma_flatten_one_element();
            }
            assert((c2.flatten() + rest).to_multiset() =~= s.to_multiset()) by {
                vstd::seq_lib::lemma_multiset_commutative(g + c.flatten(), rest);
                vstd::seq_lib::lemma_multiset_commutative(g, c.flatten());
                vstd::seq_lib::lemma_multiset_commutative(c.flatten(), r);
                vstd::seq_lib::lemma_multiset_commutative(g, rest);
            }
            assert forall|i: int| 0 <= i < c2.len() implies is_kezi(#[trigger] c2[i]) by {
                if i > 0 {
                    assert(c2[i] == c[i - 1]);
                }
            }
            if all_valid(s) {
                assert forall|i: int| 0 <= i < c2.len() implies all_valid(#[trigger] c2[i]) by {
                    if i > 0 {
                        assert(c2[i] == c[i - 1]);
                    }
                }
            }
            if is_sorted(s) {
                assert forall|i: int| 0 <= i < c2.len() implies is_sorted(#[trigger] c2[i]) by {
                    if i > 0 {
                        assert(c2[i] == c[i - 1]);
                    }
                }
            }
        }
    }
}

/// The place of the first tile of `s` with the key `k`.
pub open spec fn position_of(s: Seq<Tile>, k: int) -> Option<int>
    decreases s.len(),
{
    if s.len() == 0 {
        None
    } else if s[0].key() == k {
        Some(0)
    } else {
        match position_of(s.drop_first(), k) {
            Some(i) => Some(i + 1),
            None => None,
        }
    }
}

/// The first place with a key is the place before which the key does not
/// occur and at which it does.
pub proof fn lemma_position_of(s: Seq<Tile>, k: int)
    ensures
        match position_of(s, k) {
            Some(p) => 0 <= p < s.len() && s[p].key() == k && forall|j: int|
                0 <= j < p ==> (#[trigger] s[j]).key() != k,
            None => !has_key(s, k),
        },
    decreases s.len(),
{
    if s.len() > 0 && s[0].key() != k {
        let d = s.drop_first();
        lemma_position_of(d, k);
        match position_of(d, k) {
            Some(i) => {
                assert(d[i] == s[i + 1]);
                assert forall|j: int| 0 <= j < i + 1 implies (#[trigger] s[j]).key() != k by {
                    if j > 0 {
                        assert(s[j] == d[j - 1]);
                    }
                }
            },
            None => {
                assert forall|j: int| 0 <= j < s.len() implies (#[trigger] s[j]).key() != k by {
                    if j > 0 {
                        assert(s[j] == d[j - 1]);
                    }
                }
            },
        }
    }
}

/// The tile of `s` that follows `t` in its suit, the first of them, and
/// `s` without it.
pub open spec fn take_next(s: Seq<Tile>, t: Tile) -> Option<(Tile, Seq<Tile>)> {
    match t.spec_next() {
        None => None,
        Some(n) => match position_of(s, n.key()) {
            None => None,
            Some(i) => if 0 <= i < s.len() {
                Some((s[i], s.remove(i)))
            } else {
                None
            },
        },
    }
}

/// The runs that come of taking, again and again, the first tile and the
/// two tiles that follow it in its suit; none where a tile that is needed
/// is missing. Other ways to form runs are not tried.
pub open spec fn extract_shunzi_spec(s: Seq<Tile>) -> Option<Seq<Seq<Tile>>>
    decreases s.len(),
{
    if s.len() == 0 {
        Some(Seq::empty())
    } else {
        match take_next(s.remove(0), s[0]) {
            None => None,
            Some((mid, r2)) => match take_next(r2, mid) {
                None => None,
                Some((last, r3)) => if r3.len() < s.len() {
                    match extract_shunzi_spec(r3) {
                        None => None,
                        Some(gs) => Some(seq![seq![s[0], mid, last]] + gs),
                    }
                } else {
                    None
                },
            },
        }
    }
}

/// What `take_next` takes is a valid tile of the suit of `t` with the next
/// key, and nothing else leaves the sequence.
pub proof fn lemma_take_next(s: Seq<Tile>, t: Tile)
    requires
        t.valid(),
        all_valid(s),
    ensures
        take_next(s, t) matches Some((n, r)) ==> {
            &&& n.key() == t.key() + 1
            &&& n.spec_kind() == t.spec_kind()
            &&& n.valid()
            &&& r.len() == s.len() - 1
            &&& all_valid(r)
            &&& r.to_multiset().insert(n) == s.to_multiset()
        },
{
    crate::tile::lemma_next_key(t);
    match t.spec_next() {
        None => {},
        Some(x) => {
            lemma_position_of(s, x.key());
            match position_of(s, x.key()) {
                None => {},
                Some(i) => {
                    let r = s.remove(i);
                    vstd::seq_lib::to_multiset_remove(s, i);
                    assert(s.to_multiset().contains(s[i])) by {
                        vstd::seq_lib::to_multiset_contains(s, s[i]);
                        assert(s.contains(s[i]));
                    }
                    assert(r.to_multiset().insert(s[i]) =~= s.to_multiset());
                    assert forall|j: int| 0 <= j < r.len() implies (#[trigger] r[j]).valid() by {
                        let x = if j < i { j } else { j + 1 };
                        assert(r[j] == s[x]);
                    }
                },
            }
        },
    }
}

/// The runs that are taken out are runs of valid tiles, a third as many as
/// there were tiles, and together they hold every tile.
pub proof fn lemma_extract_shunzi(s: Seq<Tile>)
    requires
        all_valid(s),
    ensures
        extract_shunzi_spec(s) matches Some(gs) ==> {
            &&& gs.len() * 3 == s.len()
            &&& forall|i: int| 0 <= i < gs.len() ==> is_shunzi(#[trigger] gs[i])
            &&& forall|i: int| 0 <= i < gs.len() ==> all_valid(#[trigger] gs[i])
            &&& gs.flatten().to_multiset() == s.to_multiset()
        },
    decreases s.len(),
{
    if s.len() == 0 {
        assert(Seq::<Seq<Tile>>::empty().flatten() =~= Seq::<Tile>::empty());
        assert(s =~= Seq::<Tile>::empty());
    } else {
        let first = s[0];
        let r1 = s.remove(0);
        assert(first.valid());
        vstd::seq_lib::to_multiset_remove(s, 0);
        assert(s.to_multiset().contains(first)) by {
            vstd::seq_lib::to_multiset_contains(s, first);
            assert(s.contains(first));
        }
        assert(r1.to_multiset().insert(first) =~= s.to_multiset());
        assert forall|j: int| 0 <= j < r1.len() implies (#[trigger] r1[j]).valid() by {
            assert(r1[j] == s[j + 1]);
        }
        lemma_take_next(r1, first);
        match take_next(r1, first) {
            None => {},
            Some((mid, r2)) => {
                lemma_take_next(r2, mid);
                match take_next(r2, mid) {
                    None => {},
                    Some((last, r3)) => {
                        lemma_extract_shunzi(r3);
                        match extract_shunzi_spec(r3) {
                            None => {},
                            Some(gs) => {
                                let g = seq![first, mid, last];
                                let out = seq![g] + gs;
                                assert(is_shunzi(g));
                                assert(all_valid(g));
                                assert forall|i: int| 0 <= i < out.len() implies is_shunzi(
                                    #[trigger] out[i],
                                ) && all_valid(out[i]) by {
                                    if i > 0 {
                                        assert(out[i] == gs[i - 1]);
                                    }
                                }
                                assert(out.flatten() =~= g + gs.flatten()) by {
                                    vstd::seq_lib::lemma_flatten_concat(seq![g], gs);
                                    seq![g].lemma_flatten_one_element();
                                }
                                vstd::seq_lib::lemma_multiset_commutative(g, gs.flatten());
                                assert(g.to_multiset() =~= Multiset::<Tile>::empty().insert(
                                    first,
                                ).insert(mid).insert(last)) by {
                                    vstd::seq_lib::to_multiset_build(Seq::<Tile>::empty(), first);
                                    vstd::seq_lib::to_multiset_build(seq![first], mid);
                                    vstd::seq_lib::to_multiset_build(seq![first, mid], last);
                                    assert(Seq::<Tile>::empty().push(first) =~= seq![first]);
                                    assert(seq![first].push(mid) =~= seq![first, mid]);
                                    assert(seq![first, mid].push(last) =~= g);
                                    vstd::seq_lib::to_multiset_len(Seq::<Tile>::empty());
                                    vstd::multiset::lemma_multiset_empty_len(
                                        Seq::<Tile>::empty().to_multiset(),
                                    );
                                }
                                assert(out.flatten().to_multiset() =~= s.to_multiset());
                            },
                        }
                    },
                }
            },
        }
    }
}

/// Cuts a group into its maximal stretches of equal tiles.
pub fn range_same_tiles(tiles: &Tiles) -> (r: Vec<Range<usize>>)
    ensures
        is_run_partition(tiles@, r@),
{
    let mut res: Vec<Range<usize>> = Vec::new();
    let n = tiles.len();
    if n == 0 {
        res.push(Range { start: 0, end: 0 });
        return res;
    }
    let mut start: usize = 0;
    let mut index: usize = 1;
    while index < n
        invariant
            n == tiles@.len(),
            start < index <= n,
            forall|j: int| start <= j < index ==> (#[trigger] tiles@[j]).key() == tiles@[start as int].key(),
            res@.len() == 0 ==> start == 0,
            res@.len() > 0 ==> res@[0].start == 0 && res@.last().end == start && tiles@[start
                - 1].key() != tiles@[start as int].key(),
            forall|i: int| 0 <= i < res@.len() - 1 ==> (#[trigger] res@[i]).end == res@[i + 1].start,
            forall|i: int| 0 <= i < res@.len() ==> (#[trigger] res@[i]).start < res@[i].end <= start,
            forall|i: int, j: int|
                0 <= i < res@.len() && res@[i].start <= j < res@[i].end ==> (
                #[trigger] tiles@[j]).key() == tiles@[(#[trigger] res@[i]).start as int].key(),
            forall|i: int|
                1 <= i < res@.len() ==> tiles@[res@[i].start - 1].key() != tiles@[(
                #[trigger] res@[i]).start as int].key(),
        decreases n - index,
    {
        if tiles.get(index).index() != tiles.get(index - 1).index() {
            res.push(Range { start, end: index });
            start = index;
        }
        index += 1;
    }
    res.push(Range { start, end: n });
    res
}

/// Inside a stretch of equal tiles no stretch begins.
pub proof fn lemma_no_start_inside(s: Seq<Tile>, m: int, a: int, n: int)
    requires
        0 <= a < n <= s.len(),
        forall|j: int| a < j < n ==> (#[trigger] s[j]).key() == s[j - 1].key(),
    ensures
        group_starts(s, m, n) == group_starts(s, m, a + 1),
    decreases n - a,
{
    if n > a + 1 {
        lemma_no_start_inside(s, m, a, n - 1);
        assert(s[n - 1].key() == s[n - 2].key());
    }
}

/// Over a maximal stretch of equal tiles from `a` to `b` the list of group
/// starts grows by `a` if the stretch is long enough, and not at all otherwise.
pub proof fn lemma_starts_over_run(s: Seq<Tile>, m: int, a: int, b: int)
    requires
        m >= 1,
        0 <= a < b <= s.len(),
        a == 0 || s[a - 1].key() != s[a].key(),
        forall|j: int| a <= j < b ==> (#[trigger] s[j]).key() == s[a].key(),
        b < s.len() ==> s[b].key() != s[a].key(),
    ensures
        group_starts(s, m, b) == if b - a >= m {
            group_starts(s, m, a).push(a)
        } else {
            group_starts(s, m, a)
        },
{
    assert forall|j: int| a < j < b implies (#[trigger] s[j]).key() == s[j - 1].key() by {
        assert(s[j - 1].key() == s[a].key());
    }
    lemma_no_start_inside(s, m, a, b);
    if b - a >= m {
        assert(run_holds(s, a, m));
    } else if a + m <= s.len() {
        assert(s[b].key() != s[a].key());
        assert(!run_holds(s, a, m));
    }
}

/// The stretches into which a sequence is cut are its maximal stretches of
/// equal tiles: over each of them the list of group starts grows by its
/// beginning if it is long enough, and not at all otherwise.
pub proof fn lemma_partition_step(s: Seq<Tile>, r: Seq<Range<usize>>, i: int, m: int)
    requires
        m >= 1,
        s.len() > 0,
        is_run_partition(s, r),
        0 <= i < r.len(),
    ensures
        0 <= r[i].start < r[i].end <= s.len(),
        i + 1 < r.len() ==> r[i + 1].start == r[i].end,
        i + 1 == r.len() ==> r[i].end == s.len(),
        i == 0 ==> r[i].start == 0,
        group_starts(s, m, r[i].end as int) == if r[i].end - r[i].start >= m {
            group_starts(s, m, r[i].start as int).push(r[i].start as int)
        } else {
            group_starts(s, m, r[i].start as int)
        },
{
    let a = r[i].start as int;
    let b = r[i].end as int;
    assert(a < b);
    lemma_partition_ends(s, r, i);
    if i + 1 < r.len() {
        assert(r[i].end == r[i + 1].start);
        assert(s[r[i + 1].start - 1].key() != s[r[i + 1].start as int].key());
        assert(s[b - 1].key() == s[a].key());
    }
    if i > 0 {
        assert(s[r[i].start - 1].key() != s[r[i].start as int].key());
    }
    assert forall|j: int| a <= j < b implies (#[trigger] s[j]).key() == s[a].key() by {
        assert(s[j].key() == s[r[i].start as int].key());
    }
    lemma_starts_over_run(s, m, a, b);
}

/// The stretches into which a sequence is cut end inside it.
pub proof fn lemma_partition_ends(s: Seq<Tile>, r: Seq<Range<usize>>, i: int)
    requires
        is_run_partition(s, r),
        0 <= i < r.len(),
    ensures
        r[i].end <= s.len(),
    decreases r.len() - i,
{
    if i + 1 < r.len() {
        lemma_partition_ends(s, r, i + 1);
        assert(r[i].end == r[i + 1].start);
        assert(r[i + 1].start <= r[i + 1].end);
    }
}

/// The places at which a maximal stretch of at least `m` equal tiles begins.
pub fn group_start_list(tiles: &Tiles, m: usize) -> (r: Vec<usize>)
    requires
        m >= 1,
    ensures
        r@.len() == group_starts(tiles@, m as int, tiles@.len() as int).len(),
        forall|k: int|
            0 <= k < r@.len() ==> (#[trigger] r@[k]) as int == group_starts(
                tiles@,
                m as int,
                tiles@.len() as int,
            )[k],
{
    let ranges = range_same_tiles(tiles);
    let mut out: Vec<usize> = Vec::new();
    if tiles.len() == 0 {
        return out;
    }
    let ghost s = tiles@;
    let mut pos: usize = 0;
    let mut i: usize = 0;
    while i < ranges.len()
        invariant
            m >= 1,
            s == tiles@,
            s.len() > 0,
            is_run_partition(s, ranges@),
            i <= ranges@.len(),
            i < ranges@.len() ==> pos == ranges@[i as int].start,
            i == ranges@.len() ==> pos == s.len(),
            out@.len() == group_starts(s, m as int, pos as int).len(),
            forall|k: int|
                0 <= k < out@.len() ==> (#[trigger] out@[k]) as int == group_starts(
                    s,
                    m as int,
                    pos as int,
                )[k],
        decreases ranges@.len() - i,
    {
        proof {
            lemma_partition_step(s, ranges@, i as int, m as int);
        }
        let a = ranges[i].start;
        let b = ranges[i].end;
        if b - a >= m {
            out.push(a);
        }
        pos = b;
        i += 1;
    }
    out
}

/// Every way to take a pair out of the tiles: the pair and the tiles that are left.
pub fn enumerate_quetou(tiles: &Tiles) -> (r: Vec<(Tiles, Tiles)>)
    ensures
        r@.len() == quetou_candidates(tiles@).len(),
        forall|k: int|
            0 <= k < r@.len() ==> (#[trigger] r@[k]).0@ == quetou_candidates(tiles@)[k].0
                && r@[k].1@ == quetou_candidates(tiles@)[k].1,
        forall|k: int|
            0 <= k < r@.len() ==> is_duizi((#[trigger] r@[k]).0@) && r@[k].1@.len() + 2
                == tiles@.len() && (r@[k].0@ + r@[k].1@).to_multiset() == tiles@.to_multiset(),
{
    let starts = group_start_list(tiles, 2);
    let mut out: Vec<(Tiles, Tiles)> = Vec::new();
    let ghost s = tiles@;
    let ghost gs = group_starts(s, 2, s.len() as int);
    let n = tiles.len();
    proof {
        lemma_group_starts(s, 2, s.len() as int);
    }
    let mut k: usize = 0;
    while k < starts.len()
        invariant
            s == tiles@,
            n == s.len(),
            is_sorted(s),
            gs == group_starts(s, 2, s.len() as int),
            starts@.len() == gs.len(),
            forall|x: int| 0 <= x < starts@.len() ==> (#[trigger] starts@[x]) as int == gs[x],
            forall|x: int|
                0 <= x < gs.len() ==> 0 <= (#[trigger] gs[x]) && is_group_start(s, gs[x], 2),
            k <= starts@.len(),
            out@.len() == k,
            forall|x: int|
                0 <= x < k ==> (#[trigger] out@[x]).0@ == split_off(s, gs[x], 2).0 && out@[x].1@
                    == split_off(s, gs[x], 2).1,
            forall|x: int|
                0 <= x < k ==> is_duizi((#[trigger] out@[x]).0@) && out@[x].1@.len() + 2
                    == s.len() && (out@[x].0@ + out@[x].1@).to_multiset() == s.to_multiset(),
        decreases starts@.len() - k,
    {
        let st = starts[k];
        proof {
            assert(st as int == gs[k as int]);
            assert(is_group_start(s, gs[k as int], 2));
            assert(run_holds(s, st as int, 2));
            assert(st + 2 <= s.len());
            lemma_split_off(s, st as int, 2);
        }
        let mut rest = tiles.clone();
        let taken = rest.drain(st, st + 2);
        proof {
            lemma_sort_by_sorted(taken@, tile_key());
            assert(is_duizi(taken@)) by {
                assert forall|i: int| 0 <= i < taken@.len() implies (#[trigger] taken@[i]).key()
                    == taken@[0].key() by {
                    assert(taken@[i] == s[st + i]);
                    assert(taken@[0] == s[st + 0]);
                }
            }
        }
        let pair = Tiles::new(taken);
        out.push((pair, rest));
        k += 1;
    }
    out
}

/// Every way to take triplets out of the tiles: for each set of the tiles
/// that occur at least three times, the triplets and the tiles that are left.
pub fn enumerate_kezi(tiles: &Tiles) -> (r: Vec<(Vec<Tiles>, Tiles)>)
    requires
        tiles@.len() % 3 == 0,
        group_starts(tiles@, 3, tiles@.len() as int).len() <= 4,
    ensures
        r@.len() == kezi_candidates(tiles@).len(),
        forall|k: int|
            0 <= k < r@.len() ==> views((#[trigger] r@[k]).0@) == kezi_candidates(tiles@)[k].0
                && r@[k].1@ == kezi_candidates(tiles@)[k].1,
        forall|k: int|
            0 <= k < r@.len() ==> {
                &&& r@[k].1@.len() + 3 * (#[trigger] r@[k]).0@.len() == tiles@.len()
                &&& r@[k].0@.len() <= 4
                &&& forall|i: int| 0 <= i < r@[k].0@.len() ==> is_kezi(#[trigger] r@[k].0@[i]@)
                &&& (views(r@[k].0@).flatten() + r@[k].1@).to_multiset() == tiles@.to_multiset()
            },
{
    let starts = group_start_list(tiles, 3);
    let k = starts.len();
    let ghost s = tiles@;
    let ghost gs = group_starts(s, 3, s.len() as int);
    proof {
        use_type_invariant(tiles);
        lemma_group_starts(s, 3, s.len() as int);
        assert(starts_fit(s, gs));
    }
    let mut count: usize = 1;
    let mut j: usize = 0;
    while j < k
        invariant
            j <= k <= 4,
            count == two_to(j as nat),
            count <= 16,
        decreases k - j,
    {
        proof {
            reveal_with_fuel(two_to, 6);
        }
        count = count * 2;
        j += 1;
    }
    let mut res: Vec<(Vec<Tiles>, Tiles)> = Vec::new();
    let mut set: usize = 0;
    while set < count
        invariant
            s == tiles@,
            is_sorted(s),
            all_valid(s),
            gs == group_starts(s, 3, s.len() as int),
            starts_fit(s, gs),
            k == gs.len(),
            k == starts@.len(),
            k <= 4,
            forall|x: int| 0 <= x < starts@.len() ==> (#[trigger] starts@[x]) as int == gs[x],
            count == two_to(k as nat),
            set <= count,
            res@.len() == set,
            forall|x: int|
                0 <= x < set ==> views((#[trigger] res@[x]).0@) == kezi_split(s, gs, x, 0).0
                    && res@[x].1@ == kezi_split(s, gs, x, 0).1,
        decreases count - set,
    {
        let mut bits: Vec<bool> = Vec::new();
        let mut m: usize = set;
        let mut j: usize = 0;
        while j < k
            invariant
                j <= k,
                bits@.len() == j,
                forall|x: int| 0 <= x < j ==> (#[trigger] bits@[x]) == bit(set as int, x as nat),
                forall|x: nat| bit(set as int, (j + x) as nat) == #[trigger] bit(m as int, x),
            decreases k - j,
        {
            proof {
                assert(bit(set as int, (j + 0) as nat) == bit(m as int, 0));
                assert forall|x: nat| bit(set as int, (j + 1 + x) as nat) == #[trigger] bit(
                    (m / 2) as int,
                    x,
                ) by {
                    assert(bit(m as int, x + 1) == bit((m / 2) as int, x));
                    assert(bit(set as int, (j + (x + 1)) as nat) == bit(m as int, x + 1));
                }
            }
            bits.push(m % 2 == 1);
            m = m / 2;
            j += 1;
        }
        let mut rest = tiles.clone();
        let mut kezis: Vec<Tiles> = Vec::new();
        let mut j: usize = k;
        proof {
            assert(views(kezis@) =~= Seq::<Seq<Tile>>::empty());
        }
        while j > 0
            invariant
                s == tiles@,
                gs == group_starts(s, 3, s.len() as int),
                starts_fit(s, gs),
                k == gs.len(),
                k == starts@.len(),
                forall|x: int| 0 <= x < starts@.len() ==> (#[trigger] starts@[x]) as int == gs[x],
                bits@.len() == k,
                forall|x: int| 0 <= x < k ==> (#[trigger] bits@[x]) == bit(set as int, x as nat),
                j <= k,
                views(kezis@) == kezi_split(s, gs, set as int, j as int).0,
                rest@ == kezi_split(s, gs, set as int, j as int).1,
            decreases j,
        {
            proof {
                lemma_kezi_split(s, gs, set as int, j as int);
                assert(gs[j - 1] + 3 <= untouched(s, gs, j as int)) by {
                    assert(is_group_start(s, gs[j - 1], 3));
                    if j < k {
                        assert(gs[j - 1] + 3 <= gs[j as int]);
                    }
                }
            }
            j -= 1;
            if bits[j] {
                let st = starts[j];
                let ghost before = views(kezis@);
                let ghost r0 = rest@;
                let have = rest.len();
                proof {
                    assert(st as int == gs[j as int]);
                    assert(is_group_start(s, gs[j as int], 3));
                    assert(run_holds(s, st as int, 3));
                    assert(st + 3 <= have);
                }
                let taken = rest.drain(st, st + 3);
                proof {
                    lemma_split_off(r0, st as int, 3);
                    lemma_sort_by_sorted(taken@, tile_key());
                }
                let g = Tiles::new(taken);
                kezis.insert(0, g);
                proof {
                    assert(views(kezis@) =~= seq![split_off(r0, st as int, 3).0] + before);
                }
            }
        }
        proof {
            lemma_kezi_split(s, gs, set as int, 0);
        }
        res.push((kezis, rest));
        set += 1;
    }
    proof {
        assert forall|x: int| 0 <= x < res@.len() implies {
            &&& res@[x].1@.len() + 3 * (#[trigger] res@[x]).0@.len() == tiles@.len()
            &&& res@[x].0@.len() <= 4
            &&& forall|i: int| 0 <= i < res@[x].0@.len() ==> is_kezi(#[trigger] res@[x].0@[i]@)
            &&& (views(res@[x].0@).flatten() + res@[x].1@).to_multiset() == tiles@.to_multiset()
        } by {
            lemma_kezi_split(s, gs, x, 0);
            let c = kezi_split(s, gs, x, 0).0;
            assert(views(res@[x].0@).len() == res@[x].0@.len());
            assert forall|i: int| 0 <= i < res@[x].0@.len() implies is_kezi(
                #[trigger] res@[x].0@[i]@,
            ) by {
                assert(views(res@[x].0@)[i] == res@[x].0@[i]@);
                assert(is_kezi(c[i]));
            }
        }
    }
    res
}

/// Takes the first tile that follows `t` in its suit out of the tiles.
pub fn pop_next(tiles: &mut Tiles, t: Tile) -> (r: Option<Tile>)
    requires
        t.valid(),
    ensures
        match r {
            Some(n) => take_next(old(tiles)@, t) == Some((n, final(tiles)@)) && n.valid()
                && n.key() == t.key() + 1 && final(tiles)@.len() + 1 == old(tiles)@.len(),
            None => take_next(old(tiles)@, t) is None && final(tiles)@ == old(tiles)@,
        },
{
    let ghost s = tiles@;
    proof {
        crate::tile::lemma_next_key(t);
    }
    match t.next() {
        None => None,
        Some(n1) => {
            proof {
                lemma_position_of(s, n1.key());
            }
            match tiles.position(n1) {
                None => None,
                Some(i) => {
                    proof {
                        let q = position_of(s, n1.key())->0;
                        if q < i {
                            assert(s[q].key() != n1.key());
                        }
                        if i < q {
                            assert(s[i as int].key() != n1.key());
                        }
                    }
                    Some(tiles.remove(i))
                },
            }
        },
    }
}

/// Takes runs out of the tiles, always the first tile and the two that
/// follow it in its suit; none where a tile that is needed is missing.
pub fn extract_shunzi(tiles: Tiles) -> (r: Option<Vec<Tiles>>)
    requires
        tiles@.len() % 3 == 0,
    ensures
        match r {
            Some(v) => extract_shunzi_spec(tiles@) == Some(views(v@)),
            None => extract_shunzi_spec(tiles@) is None,
        },
{
    let ghost orig = tiles@;
    let mut rest = tiles;
    let mut shunzis: Vec<Tiles> = Vec::new();
    proof {
        assert(views(shunzis@) =~= Seq::<Seq<Tile>>::empty());
        match extract_shunzi_spec(orig) {
            None => {},
            Some(gs) => {
                assert(Seq::<Seq<Tile>>::empty() + gs =~= gs);
            },
        }
    }
    while !rest.is_empty()
        invariant
            orig == tiles@,
            extract_shunzi_spec(orig) == (match extract_shunzi_spec(rest@) {
                None => None,
                Some(gs) => Some(views(shunzis@) + gs),
            }),
        decreases rest@.len(),
    {
        let ghost s = rest@;
        let ghost done = views(shunzis@);
        let first = rest.remove(0);
        let mid = match pop_next(&mut rest, first) {
            Some(t) => t,
            None => {
                return None;
            },
        };
        let ghost r2 = rest@;
        let last = match pop_next(&mut rest, mid) {
            Some(t) => t,
            None => {
                return None;
            },
        };
        let group: Vec<Tile> = vec![first, mid, last];
        proof {
            assert(group@ =~= seq![first, mid, last]);
            lemma_sort_by_sorted(group@, tile_key());
        }
        shunzis.push(Tiles::new(group));
        proof {
            let g = seq![first, mid, last];
            assert(views(shunzis@) =~= done.push(g));
            lemma_extract_step(s, done, mid, r2, last, rest@);
        }
    }
    proof {
        assert(views(shunzis@) + Seq::<Seq<Tile>>::empty() =~= views(shunzis@));
    }
    Some(shunzis)
}

/// One step of the taking of runs: with the run `first mid last` taken
/// out of `s` and `r3` left, the runs of `s` are that run and the runs of `r3`.
pub proof fn lemma_extract_step(
    s: Seq<Tile>,
    done: Seq<Seq<Tile>>,
    mid: Tile,
    r2: Seq<Tile>,
    last: Tile,
    r3: Seq<Tile>,
)
    requires
        s.len() > 0,
        take_next(s.remove(0), s[0]) == Some((mid, r2)),
        take_next(r2, mid) == Some((last, r3)),
        r3.len() < s.len(),
    ensures
        (match extract_shunzi_spec(s) {
            None => None,
            Some(gs) => Some(done + gs),
        }) == (match extract_shunzi_spec(r3) {
            None => None::<Seq<Seq<Tile>>>,
            Some(gs) => Some(done.push(seq![s[0], mid, last]) + gs),
        }),
{
    let g = seq![s[0], mid, last];
    match extract_shunzi_spec(r3) {
        None => {},
        Some(gs) => {
            assert(done + (seq![g] + gs) =~= done.push(g) + gs);
        },
    }
}

/// The rank of a suited tile; 0 for an honor.
pub open spec fn rank_of(t: Tile) -> int {
    match t.spec_order() {
        Some(o) => o.rank(),
        None => 0,
    }
}

/// Whether the winning tile made one of the triplets: it is the tile of one of them.
pub open spec fn spec_is_shuangpeng(ankes: Seq<Seq<Tile>>, last: Tile) -> bool {
    exists|i: int| 0 <= i < ankes.len() && (#[trigger] ankes[i])[0].key() == last.key()
}

/// Whether the winning tile filled the gap of a run: it is the middle tile of one.
pub open spec fn spec_is_qianzhang(anshuns: Seq<Seq<Tile>>, last: Tile) -> bool {
    exists|i: int| 0 <= i < anshuns.len() && (#[trigger] anshuns[i])[1].key() == last.key()
}

/// Whether the winning tile is an end of the run.
pub open spec fn ends_run(shunzi: Seq<Tile>, last: Tile) -> bool {
    (last.key() == shunzi[0].key() || last.key() == shunzi.last().key())
        && shunzi[0].spec_order() is Some && shunzi.last().spec_order() is Some
}

/// Whether the winning tile, as an end of the run, filled an edge wait:
/// it is the 3 of 123 or the 7 of 789.
pub open spec fn is_edge(shunzi: Seq<Tile>, last: Tile) -> bool {
    (rank_of(shunzi.last()) == 3 && rank_of(last) == 3) || (rank_of(shunzi[0]) == 7 && rank_of(
        last,
    ) == 7)
}

/// The wait at the end of a run, decided by the first run from place `i`
/// on of which the winning tile is an end: an edge wait if the tile is
/// the 3 of 123 or the 7 of 789, a two-sided wait otherwise. The runs
/// behind that one are not looked at. None for an honor and where no run
/// ends in the tile.
pub open spec fn spec_liangmian_bianzhang(anshuns: Seq<Seq<Tile>>, last: Tile, i: int) -> Option<
    MachiKind,
>
    decreases anshuns.len() - i,
{
    if last.spec_order() is None || i < 0 || i >= anshuns.len() {
        None
    } else if !ends_run(anshuns[i], last) {
        spec_liangmian_bianzhang(anshuns, last, i + 1)
    } else if is_edge(anshuns[i], last) {
        Some(MachiKind::Bianzhang)
    } else {
        Some(MachiKind::Liangmian)
    }
}

/// Whether the run lies next to the tile: it begins with the tile after
/// it or ends with the tile before it.
pub open spec fn adjoins(shunzi: Seq<Tile>, last: Tile) -> bool {
    (match last.spec_next() {
        Some(n) => shunzi[0].key() == n.key(),
        None => false,
    }) || (match last.spec_prev() {
        Some(p) => shunzi.last().key() == p.key(),
        None => false,
    })
}

/// The wait on the pair: none unless the winning tile is the tile of the
/// pair; then four in a row if a run lies next to it, and a single wait otherwise.
pub open spec fn spec_danqi_yandan(quetou: Seq<Tile>, anshuns: Seq<Seq<Tile>>, last: Tile) -> Option<
    MachiKind,
> {
    if quetou[0].key() != last.key() {
        None
    } else if exists|i: int| 0 <= i < anshuns.len() && adjoins(#[trigger] anshuns[i], last) {
        Some(MachiKind::Yandan)
    } else {
        Some(MachiKind::Danqi)
    }
}

/// `seq![m]` if `b`, and nothing otherwise.
pub open spec fn machi_if(b: bool, m: MachiKind) -> Seq<MachiKind> {
    if b {
        seq![m]
    } else {
        Seq::empty()
    }
}

/// The waits that the winning tile may have filled, each judged by
/// itself, in the order two-sided, triplet, edge, closed, single, four in a row.
pub open spec fn spec_machis(
    quetou: Seq<Tile>,
    anshuns: Seq<Seq<Tile>>,
    ankes: Seq<Seq<Tile>>,
    last: Tile,
) -> Seq<MachiKind> {
    machi_if(
        spec_liangmian_bianzhang(anshuns, last, 0) == Some(MachiKind::Liangmian),
        MachiKind::Liangmian,
    ) + machi_if(spec_is_shuangpeng(ankes, last), MachiKind::Shuangpeng) + machi_if(
        spec_liangmian_bianzhang(anshuns, last, 0) == Some(MachiKind::Bianzhang),
        MachiKind::Bianzhang,
    ) + machi_if(spec_is_qianzhang(anshuns, last), MachiKind::Qianzhang) + machi_if(
        spec_danqi_yandan(quetou, anshuns, last) == Some(MachiKind::Danqi),
        MachiKind::Danqi,
    ) + machi_if(
        spec_danqi_yandan(quetou, anshuns, last) == Some(MachiKind::Yandan),
        MachiKind::Yandan,
    )
}

/// Whether every group has exactly `n` tiles.
pub open spec fn all_len(gs: Seq<Seq<Tile>>, n: int) -> bool {
    forall|i: int| 0 <= i < gs.len() ==> (#[trigger] gs[i]).len() == n
}

/// Whether every group has at least one tile.
pub open spec fn all_nonempty(gs: Seq<Seq<Tile>>) -> bool {
    forall|i: int| 0 <= i < gs.len() ==> (#[trigger] gs[i]).len() > 0
}

/// Lists the waits that the winning tile may have filled: the pair, the
/// concealed runs and the concealed triplets decide.
pub fn enumerate_machis(quetou: &Tiles, anshuns: &[Tiles], ankes: &[Tiles], last: Tile) -> (r:
    Vec<MachiKind>)
    requires
        quetou@.len() > 0,
        all_len(views(anshuns@), 3),
        all_nonempty(views(ankes@)),
    ensures
        r@ == spec_machis(quetou@, views(anshuns@), views(ankes@), last),
{
    MachiEnumerator::new(quetou, anshuns, ankes, last).enumerate()
}

/// The pair, the concealed runs, the concealed triplets and the winning
/// tile, from which the waits are read.
struct MachiEnumerator<'a> {
    quetou: &'a Tiles,
    anshuns: &'a [Tiles],
    ankes: &'a [Tiles],
    last: Tile,
}

impl<'a> MachiEnumerator<'a> {
    spec fn fits(self) -> bool {
        &&& self.quetou@.len() > 0
        &&& all_len(views(self.anshuns@), 3)
        &&& all_nonempty(views(self.ankes@))
    }

    spec fn runs(self) -> Seq<Seq<Tile>> {
        views(self.anshuns@)
    }

    fn new(quetou: &'a Tiles, anshuns: &'a [Tiles], ankes: &'a [Tiles], last: Tile) -> (r:
        MachiEnumerator<'a>)
        ensures
            r.quetou == quetou,
            r.anshuns == anshuns,
            r.ankes == ankes,
            r.last == last,
    {
        MachiEnumerator { quetou, anshuns, ankes, last }
    }

    fn enumerate(&self) -> (r: Vec<MachiKind>)
        requires
            self.fits(),
        ensures
            r@ == spec_machis(self.quetou@, self.runs(), views(self.ankes@), self.last),
    {
        let mut result: Vec<MachiKind> = Vec::new();
        if self.is_liangmian() {
            result.push(MachiKind::Liangmian);
        }
        if self.is_shuangpeng() {
            result.push(MachiKind::Shuangpeng);
        }
        if self.is_bianzhang() {
            result.push(MachiKind::Bianzhang);
        }
        if self.is_qianzhang() {
            result.push(MachiKind::Qianzhang);
        }
        if self.is_danqi() {
            result.push(MachiKind::Danqi);
        }
        if self.is_yandan() {
            result.push(MachiKind::Yandan);
        }
        proof {
            assert(result@ =~= spec_machis(
                self.quetou@,
                self.runs(),
                views(self.ankes@),
                self.last,
            ));
        }
        result
    }

    fn is_liangmian(&self) -> (r: bool)
        requires
            self.fits(),
        ensures
            r == (spec_liangmian_bianzhang(self.runs(), self.last, 0) == Some(
                MachiKind::Liangmian,
            )),
    {
        match self.is_liangmian_bianzhang() {
            Some(MachiKind::Liangmian) => true,
            _ => false,
        }
    }

    fn is_shuangpeng(&self) -> (r: bool)
        requires
            self.fits(),
        ensures
            r == spec_is_shuangpeng(views(self.ankes@), self.last),
    {
        let k: u16 = self.last.index();
        let mut i: usize = 0;
        while i < self.ankes.len()
            invariant
                self.fits(),
                k == self.last.key(),
                i <= self.ankes@.len(),
                forall|j: int| 0 <= j < i ==> (#[trigger] views(self.ankes@)[j])[0].key() != k,
            decreases self.ankes@.len() - i,
        {
            proof {
                assert(views(self.ankes@)[i as int].len() > 0);
            }
            if self.ankes[i].first().index() == k {
                proof {
                    assert(views(self.ankes@)[i as int][0].key() == k);
                }
                return true;
            }
            i += 1;
        }
        false
    }

    fn is_bianzhang(&self) -> (r: bool)
        requires
            self.fits(),
        ensures
            r == (spec_liangmian_bianzhang(self.runs(), self.last, 0) == Some(
                MachiKind::Bianzhang,
            )),
    {
        match self.is_liangmian_bianzhang() {
            Some(MachiKind::Bianzhang) => true,
            _ => false,
        }
    }

    fn is_qianzhang(&self) -> (r: bool)
        requires
            self.fits(),
        ensures
            r == spec_is_qianzhang(self.runs(), self.last),
    {
        let k: u16 = self.last.index();
        let mut i: usize = 0;
        while i < self.anshuns.len()
            invariant
                self.fits(),
                k == self.last.key(),
                i <= self.anshuns@.len(),
                forall|j: int| 0 <= j < i ==> (#[trigger] views(self.anshuns@)[j])[1].key() != k,
            decreases self.anshuns@.len() - i,
        {
            proof {
                assert(views(self.anshuns@)[i as int].len() == 3);
            }
            if self.anshuns[i].middle().index() == k {
                proof {
                    assert(views(self.anshuns@)[i as int][1].key() == k);
                }
                return true;
            }
            i += 1;
        }
        false
    }

    fn is_danqi(&self) -> (r: bool)
        requires
            self.fits(),
        ensures
            r == (spec_danqi_yandan(self.quetou@, self.runs(), self.last) == Some(
                MachiKind::Danqi,
            )),
    {
        match self.is_danqi_yandan() {
            Some(MachiKind::Danqi) => true,
            _ => false,
        }
    }

    fn is_yandan(&self) -> (r: bool)
        requires
            self.fits(),
        ensures
            r == (spec_danqi_yandan(self.quetou@, self.runs(), self.last) == Some(
                MachiKind::Yandan,
            )),
    {
        match self.is_danqi_yandan() {
            Some(MachiKind::Yandan) => true,
            _ => false,
        }
    }

    fn is_liangmian_bianzhang(&self) -> (r: Option<MachiKind>)
        requires
            self.fits(),
        ensures
            r == spec_liangmian_bianzhang(self.runs(), self.last, 0),
    {
        let order_last = match self.last.order() {
            Some(o) => o,
            None => {
                return None;
            },
        };
        let k: u16 = self.last.index();
        let mut i: usize = 0;
        while i < self.anshuns.len()
            invariant
                self.fits(),
                k == self.last.key(),
                self.last.spec_order() == Some(order_last),
                i <= self.anshuns@.len(),
                spec_liangmian_bianzhang(self.runs(), self.last, 0) == spec_liangmian_bianzhang(
                    self.runs(),
                    self.last,
                    i as int,
                ),
            decreases self.anshuns@.len() - i,
        {
            proof {
                assert(views(self.anshuns@)[i as int].len() == 3);
                assert(views(self.anshuns@)[i as int] == self.anshuns@[i as int]@);
            }
            let shunzi = &self.anshuns[i];
            let first = shunzi.first();
            let end = shunzi.last();
            if k == first.index() || k == end.index() {
                match (first.order(), end.order()) {
                    (Some(order_first), Some(order_end)) => {
                        if order_end.number() == 3 && order_last.number() == 3 {
                            return Some(MachiKind::Bianzhang);
                        }
                        if order_first.number() == 7 && order_last.number() == 7 {
                            return Some(MachiKind::Bianzhang);
                        }
                        return Some(MachiKind::Liangmian);
                    },
                    _ => {},
                }
            }
            i += 1;
        }
        None
    }

    fn is_danqi_yandan(&self) -> (r: Option<MachiKind>)
        requires
            self.fits(),
        ensures
            r == spec_danqi_yandan(self.quetou@, self.runs(), self.last),
    {
        if self.quetou.first().index() != self.last.index() {
            return None;
        }
        let next = self.last.next();
        let prev = self.last.prev();
        let mut i: usize = 0;
        while i < self.anshuns.len()
            invariant
                self.fits(),
                next == self.last.spec_next(),
                prev == self.last.spec_prev(),
                self.quetou@[0].key() == self.last.key(),
                i <= self.anshuns@.len(),
                forall|j: int| 0 <= j < i ==> !adjoins(#[trigger] views(self.anshuns@)[j], self.last),
            decreases self.anshuns@.len() - i,
        {
            proof {
                assert(views(self.anshuns@)[i as int].len() == 3);
                assert(views(self.anshuns@)[i as int] == self.anshuns@[i as int]@);
            }
            let shunzi = &self.anshuns[i];
            let begins = match next {
                Some(n) => shunzi.first().index() == n.index(),
                None => false,
            };
            let ends = match prev {
                Some(p) => shunzi.last().index() == p.index(),
                None => false,
            };
            if begins || ends {
                proof {
                    assert(adjoins(views(self.anshuns@)[i as int], self.last));
                }
                return Some(MachiKind::Yandan);
            }
            i += 1;
        }
        Some(MachiKind::Danqi)
    }
}

/// The place of the first group, from place `i` on, that holds the tile with key `k`.
pub open spec fn holding_from(gs: Seq<Seq<Tile>>, k: int, i: int) -> Option<int>
    decreases gs.len() - i,
{
    if i < 0 || i >= gs.len() {
        None
    } else if has_key(gs[i], k) {
        Some(i)
    } else {
        holding_from(gs, k, i + 1)
    }
}

/// The first group that holds a tile lies in the list.
pub proof fn lemma_holding_from(gs: Seq<Seq<Tile>>, k: int, i: int)
    ensures
        holding_from(gs, k, i) matches Some(p) ==> 0 <= p < gs.len() && i <= p && has_key(
            gs[p],
            k,
        ),
    decreases gs.len() - i,
{
    if 0 <= i < gs.len() && !has_key(gs[i], k) {
        lemma_holding_from(gs, k, i + 1);
    }
}

/// A key is held by two sequences in a row where one of them holds it.
pub proof fn lemma_has_key_add(a: Seq<Tile>, b: Seq<Tile>, k: int)
    ensures
        has_key(a + b, k) <==> has_key(a, k) || has_key(b, k),
{
    if has_key(a + b, k) {
        let i = choose|i: int| 0 <= i < (a + b).len() && (#[trigger] (a + b)[i]).key() == k;
        if i < a.len() {
            assert(a[i].key() == k);
        } else {
            assert(b[i - a.len()].key() == k);
        }
    }
    if has_key(a, k) {
        let i = choose|i: int| 0 <= i < a.len() && (#[trigger] a[i]).key() == k;
        assert((a + b)[i].key() == k);
    }
    if has_key(b, k) {
        let i = choose|i: int| 0 <= i < b.len() && (#[trigger] b[i]).key() == k;
        assert((a + b)[i + a.len()].key() == k);
    }
}

/// A key that the tiles of all groups hold together is held by a group,
/// and the first such group is found.
pub proof fn lemma_has_key_flatten(gs: Seq<Seq<Tile>>, k: int, i: int)
    requires
        0 <= i <= gs.len(),
        has_key(gs.skip(i).flatten(), k),
    ensures
        holding_from(gs, k, i) is Some,
    decreases gs.len() - i,
{
    let rest = gs.skip(i);
    if i == gs.len() {
        assert(rest =~= Seq::<Seq<Tile>>::empty());
        assert(rest.flatten() =~= Seq::<Tile>::empty());
    } else {
        assert(rest.first() == gs[i]);
        assert(rest.drop_first() =~= gs.skip(i + 1));
        lemma_has_key_add(gs[i], gs.skip(i + 1).flatten(), k);
        if !has_key(gs[i], k) {
            lemma_has_key_flatten(gs, k, i + 1);
        }
    }
}

/// The concealed groups after a claimed winning tile has opened one of them.
pub struct Reconciled {
    pub rongming: RongmingView,
    pub angangs: Seq<Seq<Tile>>,
    pub kezis: Seq<Seq<Tile>>,
    pub shunzis: Seq<Seq<Tile>>,
}

/// Opens the group that a claimed winning tile completed: the first
/// concealed run that holds the tile; if there is none, the first
/// concealed triplet; if there is none, the first concealed quad. A tile
/// that was drawn opens nothing, nor does one that completed the pair.
pub open spec fn reconcile(
    is_zimo: bool,
    last: Tile,
    angangs: Seq<Seq<Tile>>,
    kezis: Seq<Seq<Tile>>,
    shunzis: Seq<Seq<Tile>>,
) -> Reconciled {
    let k = last.key();
    if is_zimo {
        Reconciled { rongming: RongmingView::Neither, angangs, kezis, shunzis }
    } else {
        match holding_from(shunzis, k, 0) {
            Some(i) => Reconciled {
                rongming: RongmingView::Mingshun(shunzis[i]),
                angangs,
                kezis,
                shunzis: shunzis.remove(i),
            },
            None => match holding_from(kezis, k, 0) {
                Some(i) => Reconciled {
                    rongming: RongmingView::Mingke(kezis[i]),
                    angangs,
                    kezis: kezis.remove(i),
                    shunzis,
                },
                None => match holding_from(angangs, k, 0) {
                    Some(i) => Reconciled {
                        rongming: RongmingView::Mingke(angangs[i]),
                        angangs: angangs.remove(i),
                        kezis,
                        shunzis,
                    },
                    None => Reconciled { rongming: RongmingView::Neither, angangs, kezis, shunzis },
                },
            },
        }
    }
}

/// A group and the others hold together what the list of groups holds.
pub proof fn lemma_flatten_remove(gs: Seq<Seq<Tile>>, i: int)
    requires
        0 <= i < gs.len(),
    ensures
        (gs[i] + gs.remove(i).flatten()).to_multiset() == gs.flatten().to_multiset(),
{
    let a = gs.take(i);
    let b = gs.skip(i + 1);
    let g = gs[i];
    assert(gs =~= a + seq![g] + b);
    assert(gs.remove(i) =~= a + b);
    vstd::seq_lib::lemma_flatten_concat(a + seq![g], b);
    vstd::seq_lib::lemma_flatten_concat(a, seq![g]);
    vstd::seq_lib::lemma_flatten_concat(a, b);
    seq![g].lemma_flatten_one_element();
    let fa = a.flatten();
    let fb = b.flatten();
    assert(gs.flatten() =~= fa + g + fb);
    vstd::seq_lib::lemma_multiset_commutative(fa + g, fb);
    vstd::seq_lib::lemma_multiset_commutative(fa, g);
    vstd::seq_lib::lemma_multiset_commutative(g, fa + fb);
    vstd::seq_lib::lemma_multiset_commutative(fa, fb);
    assert((g + (fa + fb)).to_multiset() =~= (fa + g + fb).to_multiset());
}

/// The place of the first group that holds a tile equal to `t`.
pub fn find_holding(groups: &Vec<Tiles>, t: Tile) -> (r: Option<usize>)
    ensures
        match r {
            Some(i) => holding_from(views(groups@), t.key(), 0) == Some(i as int) && i
                < groups@.len(),
            None => holding_from(views(groups@), t.key(), 0) is None,
        },
{
    let mut i: usize = 0;
    while i < groups.len()
        invariant
            i <= groups@.len(),
            holding_from(views(groups@), t.key(), 0) == holding_from(
                views(groups@),
                t.key(),
                i as int,
            ),
        decreases groups@.len() - i,
    {
        proof {
            assert(views(groups@)[i as int] == groups@[i as int]@);
        }
        if groups[i].contains(t) {
            return Some(i);
        }
        i += 1;
    }
    None
}

/// Whether a winning tile has a home among the concealed parts of the
/// hand: a run, a triplet or a concealed quad holds it, or it is the
/// tile of the pair.
pub open spec fn has_home(
    last: Tile,
    quetou: Seq<Tile>,
    angangs: Seq<Seq<Tile>>,
    kezis: Seq<Seq<Tile>>,
    shunzis: Seq<Seq<Tile>>,
) -> bool {
    holding_from(shunzis, last.key(), 0) is Some || holding_from(kezis, last.key(), 0) is Some
        || holding_from(angangs, last.key(), 0) is Some || (quetou.len() > 0 && quetou[0].key()
        == last.key())
}

/// A tile that is among the pair, the triplets and the runs has a home.
pub proof fn lemma_has_home(
    last: Tile,
    quetou: Seq<Tile>,
    angangs: Seq<Seq<Tile>>,
    kezis: Seq<Seq<Tile>>,
    shunzis: Seq<Seq<Tile>>,
)
    requires
        is_duizi(quetou),
        has_key(quetou + kezis.flatten() + shunzis.flatten(), last.key()),
    ensures
        has_home(last, quetou, angangs, kezis, shunzis),
{
    let k = last.key();
    lemma_has_key_add(quetou + kezis.flatten(), shunzis.flatten(), k);
    lemma_has_key_add(quetou, kezis.flatten(), k);
    assert(kezis.skip(0) =~= kezis);
    assert(shunzis.skip(0) =~= shunzis);
    if has_key(shunzis.flatten(), k) {
        lemma_has_key_flatten(shunzis, k, 0);
    } else if has_key(kezis.flatten(), k) {
        lemma_has_key_flatten(kezis, k, 0);
    } else {
        let i = choose|i: int| 0 <= i < quetou.len() && (#[trigger] quetou[i]).key() == k;
        assert(quetou[i].key() == quetou[0].key());
    }
}

/// Opens the group that a claimed winning tile completed and takes it out
/// of its list: a concealed run before a concealed triplet, a triplet
/// before a concealed quad. A claimed tile that no group holds is the
/// tile of the pair; a claimed tile without a home is not accepted.
pub fn fix_rong_an_mings(
    tilesets: &mut Tilesets,
    quetou: &Tiles,
    kezis_in_hand: &mut Vec<Tiles>,
    shunzis_in_hand: &mut Vec<Tiles>,
) -> (r: Rongming)
    requires
        old(tilesets)@.is_zimo || has_home(
            old(tilesets)@.last,
            quetou@,
            old(tilesets)@.angangs,
            views(old(kezis_in_hand)@),
            views(old(shunzis_in_hand)@),
        ),
    ensures
        r@ is Neither && !old(tilesets)@.is_zimo ==> quetou@.len() > 0 && quetou@[0].key() == old(
            tilesets,
        )@.last.key(),
        ({
            let rec = reconcile(
                old(tilesets)@.is_zimo,
                old(tilesets)@.last,
                old(tilesets)@.angangs,
                views(old(kezis_in_hand)@),
                views(old(shunzis_in_hand)@),
            );
            &&& r@ == rec.rongming
            &&& final(tilesets)@ == (TilesetsView { angangs: rec.angangs, ..old(tilesets)@ })
            &&& views(final(kezis_in_hand)@) == rec.kezis
            &&& views(final(shunzis_in_hand)@) == rec.shunzis
        }),
{
    if tilesets.is_zimo {
        return Rongming::Neither;
    }
    let last = tilesets.last;
    match find_holding(shunzis_in_hand, last) {
        Some(pos) => {
            let ghost before = views(shunzis_in_hand@);
            let g = shunzis_in_hand.remove(pos);
            proof {
                assert(views(shunzis_in_hand@) =~= before.remove(pos as int));
            }
            return Rongming::Mingshun(g);
        },
        None => {},
    }
    match find_holding(kezis_in_hand, last) {
        Some(pos) => {
            let ghost before = views(kezis_in_hand@);
            let g = kezis_in_hand.remove(pos);
            proof {
                assert(views(kezis_in_hand@) =~= before.remove(pos as int));
            }
            return Rongming::Mingke(g);
        },
        None => {},
    }
    match find_holding(&tilesets.angangs, last) {
        Some(pos) => {
            let ghost before = views(tilesets.angangs@);
            let g = tilesets.angangs.remove(pos);
            proof {
                assert(views(tilesets.angangs@) =~= before.remove(pos as int));
            }
            return Rongming::Mingke(g);
        },
        None => {},
    }
    assert(quetou@[0].key() == last.key());
    Rongming::Neither
}

/// A winning hand taken apart.
#[derive(Debug)]
pub struct AgariTilesets {
    pub(crate) tilesets: Tilesets,
    pub(crate) machi: MachiKind,
    pub(crate) rongming: Rongming,
    pub(crate) quetou: Tiles,
    pub(crate) kezis_in_hand: Vec<Tiles>,
    pub(crate) shunzis_in_hand: Vec<Tiles>,
}

/// What a hand taken apart holds, as plain values.
pub struct AgariView {
    /// The table state; a concealed quad that the winning tile opened has left it.
    pub tilesets: TilesetsView,
    /// The wait.
    pub machi: MachiKind,
    /// The group that a claimed winning tile opened.
    pub rongming: RongmingView,
    /// The pair.
    pub quetou: Seq<Tile>,
    /// The concealed triplets of the hand.
    pub kezis_in_hand: Seq<Seq<Tile>>,
    /// The concealed runs of the hand.
    pub shunzis_in_hand: Seq<Seq<Tile>>,
}

/// The text of groups, each followed by a blank.
pub open spec fn spaced_text(groups: Seq<Seq<Tile>>) -> Seq<char>
    decreases groups.len(),
{
    if groups.len() == 0 {
        Seq::empty()
    } else {
        spaced_text(groups.drop_last()) + tiles_text(groups.last()) + " "@
    }
}

impl AgariView {
    /// The hand taken apart as given, the group that a claimed winning tile completed opened.
    pub open spec fn make(
        ts: TilesetsView,
        machi: MachiKind,
        quetou: Seq<Tile>,
        kezis: Seq<Seq<Tile>>,
        shunzis: Seq<Seq<Tile>>,
    ) -> AgariView {
        let rec = reconcile(ts.is_zimo, ts.last, ts.angangs, kezis, shunzis);
        AgariView {
            tilesets: TilesetsView { angangs: rec.angangs, ..ts },
            machi,
            rongming: rec.rongming,
            quetou,
            kezis_in_hand: rec.kezis,
            shunzis_in_hand: rec.shunzis,
        }
    }

    /// The open triplets and quads: claimed triplets, open quads, and the
    /// triplet that a claimed winning tile opened.
    pub open spec fn mingkes(self) -> Seq<Seq<Tile>> {
        self.tilesets.pengs + self.tilesets.minggangs + self.rongming.mingkes()
    }

    /// The concealed triplets and quads.
    pub open spec fn ankes(self) -> Seq<Seq<Tile>> {
        self.kezis_in_hand + self.tilesets.angangs
    }

    /// The open runs: claimed runs, and the run that a claimed winning tile opened.
    pub open spec fn mingshuns(self) -> Seq<Seq<Tile>> {
        self.tilesets.chis + self.rongming.mingshuns()
    }

    /// The concealed runs.
    pub open spec fn anshuns(self) -> Seq<Seq<Tile>> {
        self.shunzis_in_hand
    }

    /// All triplets and quads, the open ones first.
    pub open spec fn kezis(self) -> Seq<Seq<Tile>> {
        self.mingkes() + self.ankes()
    }

    /// All runs, the open ones first.
    pub open spec fn shunzis(self) -> Seq<Seq<Tile>> {
        self.mingshuns() + self.anshuns()
    }

    /// All groups but the pair: triplets and quads, then runs.
    pub open spec fn mianzis(self) -> Seq<Seq<Tile>> {
        self.kezis() + self.shunzis()
    }

    /// The tiles that were concealed before the winning tile came, and that tile.
    pub open spec fn concealed_tiles(self) -> Seq<Tile> {
        self.quetou + self.kezis_in_hand.flatten() + self.shunzis_in_hand.flatten()
            + self.rongming.tiles() + self.tilesets.angangs.flatten()
    }

    /// Whether the hand taken apart holds exactly the tiles of the table
    /// state `ts`: the pair, the concealed triplets and runs, the opened
    /// group and the concealed quads are the hand, the winning tile and
    /// the concealed quads of `ts`; the rest is as in `ts`; and no tile
    /// has come to the concealed quads.
    pub open spec fn conserves(self, ts: TilesetsView) -> bool {
        &&& self.concealed_tiles().to_multiset() == (ts.hand.push(ts.last)
            + ts.angangs.flatten()).to_multiset()
        &&& self.tilesets == (TilesetsView { angangs: self.tilesets.angangs, ..ts })
        &&& self.tilesets.angangs.flatten().len() <= ts.angangs.flatten().len()
    }

    /// Whether a claimed winning tile has its place: where it opened no
    /// group, it is the tile of the pair.
    pub open spec fn homed(self) -> bool {
        !self.tilesets.is_zimo && self.rongming is Neither ==> self.quetou[0].key()
            == self.tilesets.last.key()
    }

    /// Whether the parts are what they are called, and there are four groups beside the pair.
    pub open spec fn wf(self) -> bool {
        &&& self.tilesets.groups_fit()
        &&& is_duizi(self.quetou)
        &&& forall|i: int|
            0 <= i < self.kezis_in_hand.len() ==> is_kezi(#[trigger] self.kezis_in_hand[i])
        &&& forall|i: int|
            0 <= i < self.shunzis_in_hand.len() ==> is_shunzi(#[trigger] self.shunzis_in_hand[i])
        &&& match self.rongming {
            RongmingView::Mingke(g) => is_kezi(g) || is_gangzi(g),
            RongmingView::Mingshun(g) => is_shunzi(g),
            RongmingView::Neither => true,
        }
        &&& self.mianzis().len() == 4
    }

    /// The hand as text: the groups, the pair, the wait.
    pub open spec fn text(self) -> Seq<char> {
        spaced_text(self.mianzis()) + tiles_text(self.quetou) + " "@ + "待ち: "@
            + self.machi.text()
    }
}

/// Opening a group keeps every tile and every group what it is.
pub proof fn lemma_make(
    ts: TilesetsView,
    machi: MachiKind,
    quetou: Seq<Tile>,
    kezis: Seq<Seq<Tile>>,
    shunzis: Seq<Seq<Tile>>,
)
    requires
        ts.groups_fit(),
        is_duizi(quetou),
        forall|i: int| 0 <= i < kezis.len() ==> is_kezi(#[trigger] kezis[i]),
        forall|i: int| 0 <= i < shunzis.len() ==> is_shunzi(#[trigger] shunzis[i]),
        ts.pengs.len() + ts.chis.len() + ts.minggangs.len() + ts.angangs.len() + kezis.len()
            + shunzis.len() == 4,
    ensures
        AgariView::make(ts, machi, quetou, kezis, shunzis).wf(),
        AgariView::make(ts, machi, quetou, kezis, shunzis).concealed_tiles().to_multiset() == (
        quetou + kezis.flatten() + shunzis.flatten() + ts.angangs.flatten()).to_multiset(),
        AgariView::make(ts, machi, quetou, kezis, shunzis).tilesets.angangs.flatten().len()
            <= ts.angangs.flatten().len(),
        has_key(quetou + kezis.flatten() + shunzis.flatten(), ts.last.key()) ==> AgariView::make(
            ts,
            machi,
            quetou,
            kezis,
            shunzis,
        ).homed(),
{
    let a = AgariView::make(ts, machi, quetou, kezis, shunzis);
    let k = ts.last.key();
    if has_key(quetou + kezis.flatten() + shunzis.flatten(), k) && !ts.is_zimo {
        lemma_has_key_add(quetou + kezis.flatten(), shunzis.flatten(), k);
        lemma_has_key_add(quetou, kezis.flatten(), k);
        assert(kezis.skip(0) =~= kezis);
        assert(shunzis.skip(0) =~= shunzis);
        if has_key(shunzis.flatten(), k) {
            lemma_has_key_flatten(shunzis, k, 0);
        } else if has_key(kezis.flatten(), k) {
            lemma_has_key_flatten(kezis, k, 0);
        } else {
            let i = choose|i: int| 0 <= i < quetou.len() && (#[trigger] quetou[i]).key() == k;
            assert(quetou[i].key() == quetou[0].key());
        }
    }
    let fk = kezis.flatten();
    let fs = shunzis.flatten();
    let fa = ts.angangs.flatten();
    let empty = Seq::<Tile>::empty();
    assert(quetou + fk + fs + empty + fa =~= quetou + fk + fs + fa);
    if !ts.is_zimo {
        lemma_holding_from(shunzis, k, 0);
        lemma_holding_from(kezis, k, 0);
        lemma_holding_from(ts.angangs, k, 0);
        match holding_from(shunzis, k, 0) {
            Some(i) => {
                lemma_flatten_remove(shunzis, i);
                let g = shunzis[i];
                let rest = shunzis.remove(i);
                assert forall|j: int| 0 <= j < rest.len() implies is_shunzi(#[trigger] rest[j]) by {
                    let x = if j < i { j } else { j + 1 };
                    assert(rest[j] == shunzis[x]);
                }
                let fr = rest.flatten();
                vstd::seq_lib::lemma_multiset_commutative(quetou + fk + fr + g, fa);
                vstd::seq_lib::lemma_multiset_commutative(quetou + fk + fr, g);
                vstd::seq_lib::lemma_multiset_commutative(quetou + fk, fr);
                vstd::seq_lib::lemma_multiset_commutative(g, fr);
                vstd::seq_lib::lemma_multiset_commutative(quetou + fk + fs, fa);
                vstd::seq_lib::lemma_multiset_commutative(quetou + fk, fs);
                assert(a.concealed_tiles() =~= quetou + fk + fr + g + fa);
                assert(a.concealed_tiles().to_multiset() =~= (quetou + fk + fs
                    + fa).to_multiset());
            },
            None => match holding_from(kezis, k, 0) {
                Some(i) => {
                    lemma_flatten_remove(kezis, i);
                    let g = kezis[i];
                    let rest = kezis.remove(i);
                    assert forall|j: int| 0 <= j < rest.len() implies is_kezi(
                        #[trigger] rest[j],
                    ) by {
                        let x = if j < i { j } else { j + 1 };
                        assert(rest[j] == kezis[x]);
                    }
                    let fr = rest.flatten();
                    vstd::seq_lib::lemma_multiset_commutative(quetou + fr + fs + g, fa);
                    vstd::seq_lib::lemma_multiset_commutative(quetou + fr + fs, g);
                    vstd::seq_lib::lemma_multiset_commutative(quetou + fr, fs);
                    vstd::seq_lib::lemma_multiset_commutative(quetou, fr);
                    vstd::seq_lib::lemma_multiset_commutative(g, fr);
                    vstd::seq_lib::lemma_multiset_commutative(quetou + fk + fs, fa);
                    vstd::seq_lib::lemma_multiset_commutative(quetou + fk, fs);
                    vstd::seq_lib::lemma_multiset_commutative(quetou, fk);
                    assert(a.concealed_tiles() =~= quetou + fr + fs + g + fa);
                    assert(a.concealed_tiles().to_multiset() =~= (quetou + fk + fs
                        + fa).to_multiset());
                },
                None => match holding_from(ts.angangs, k, 0) {
                    Some(i) => {
                        lemma_flatten_remove(ts.angangs, i);
                        let g = ts.angangs[i];
                        let rest = ts.angangs.remove(i);
                        assert forall|j: int| 0 <= j < rest.len() implies is_gangzi(
                            #[trigger] rest[j],
                        ) && all_valid(rest[j]) by {
                            let x = if j < i { j } else { j + 1 };
                            assert(rest[j] == ts.angangs[x]);
                        }
                        let fr = rest.flatten();
                        vstd::seq_lib::to_multiset_len(g + fr);
                        vstd::seq_lib::to_multiset_len(fa);
                        vstd::seq_lib::lemma_multiset_commutative(quetou + fk + fs + g, fr);
                        vstd::seq_lib::lemma_multiset_commutative(quetou + fk + fs, g);
                        vstd::seq_lib::lemma_multiset_commutative(g, fr);
                        vstd::seq_lib::lemma_multiset_commutative(quetou + fk + fs, fa);
                        assert(a.concealed_tiles() =~= quetou + fk + fs + g + fr);
                        assert(a.concealed_tiles().to_multiset() =~= (quetou + fk + fs
                            + fa).to_multiset());
                    },
                    None => {},
                },
            },
        }
    }
}

/// The hands of `s` as plain values.
pub open spec fn agari_views(s: Seq<AgariTilesets>) -> Seq<AgariView> {
    s.map_values(|a: AgariTilesets| a@)
}

impl AgariView {
    /// The hand with the pair, the triplets and the runs as given, once for each wait.
    pub open spec fn for_machis(
        ts: TilesetsView,
        quetou: Seq<Tile>,
        kezis: Seq<Seq<Tile>>,
        shunzis: Seq<Seq<Tile>>,
        machis: Seq<MachiKind>,
    ) -> Seq<AgariView> {
        Seq::new(machis.len(), |i: int| AgariView::make(ts, machis[i], quetou, kezis, shunzis))
    }

    /// The hands with the pair and the triplets as given: the rest must
    /// fall into runs, and there is one hand for each wait.
    pub open spec fn for_choice(
        ts: TilesetsView,
        quetou: Seq<Tile>,
        kezis: Seq<Seq<Tile>>,
        rest: Seq<Tile>,
    ) -> Seq<AgariView> {
        match extract_shunzi_spec(rest) {
            None => Seq::empty(),
            Some(shunzis) => AgariView::for_machis(
                ts,
                quetou,
                kezis,
                shunzis,
                spec_machis(quetou, shunzis, kezis, ts.last),
            ),
        }
    }

    /// The hands with the pair as given, over the first `n` ways to take triplets out.
    pub open spec fn for_choices(
        ts: TilesetsView,
        quetou: Seq<Tile>,
        choices: Seq<(Seq<Seq<Tile>>, Seq<Tile>)>,
        n: int,
    ) -> Seq<AgariView>
        decreases n,
    {
        if n <= 0 {
            Seq::empty()
        } else {
            AgariView::for_choices(ts, quetou, choices, n - 1) + AgariView::for_choice(
                ts,
                quetou,
                choices[n - 1].0,
                choices[n - 1].1,
            )
        }
    }

    /// The hands over the first `n` ways to take a pair out.
    pub open spec fn for_quetous(
        ts: TilesetsView,
        cands: Seq<(Seq<Tile>, Seq<Tile>)>,
        n: int,
    ) -> Seq<AgariView>
        decreases n,
    {
        if n <= 0 {
            Seq::empty()
        } else {
            AgariView::for_quetous(ts, cands, n - 1) + AgariView::for_choices(
                ts,
                cands[n - 1].0,
                kezi_candidates(cands[n - 1].1),
                kezi_candidates(cands[n - 1].1).len() as int,
            )
        }
    }

    /// Every way to take the hand of `ts` apart: for each pair, for each
    /// set of triplets, the runs taken out of the rest, for each wait.
    pub open spec fn enumerate(ts: TilesetsView) -> Seq<AgariView> {
        let cands = quetou_candidates(crate::tiles::sort_tiles(ts.hand.push(ts.last)));
        AgariView::for_quetous(ts, cands, cands.len() as int)
    }
}

impl View for AgariTilesets {
    type V = AgariView;

    open(crate) spec fn view(&self) -> AgariView {
        AgariView {
            tilesets: self.tilesets@,
            machi: self.machi,
            rongming: self.rongming@,
            quetou: self.quetou@,
            kezis_in_hand: views(self.kezis_in_hand@),
            shunzis_in_hand: views(self.shunzis_in_hand@),
        }
    }
}

/// Appends clones of the groups to `out`.
pub fn append_groups(out: &mut Vec<Tiles>, more: &Vec<Tiles>)
    ensures
        views(final(out)@) == views(old(out)@) + views(more@),
{
    let mut i: usize = 0;
    while i < more.len()
        invariant
            i <= more@.len(),
            views(out@) == views(old(out)@) + views(more@.take(i as int)),
        decreases more@.len() - i,
    {
        let ghost before = views(out@);
        let g = more[i].clone();
        out.push(g);
        i += 1;
        proof {
            assert(views(out@) =~= before.push(g@));
            assert(views(more@.take(i as int)) =~= views(more@.take(i - 1)).push(more@[i - 1]@));
            assert(views(out@) =~= views(old(out)@) + views(more@.take(i as int)));
        }
    }
    proof {
        assert(more@.take(more@.len() as int) =~= more@);
    }
}

/// The multiset of four sequences in a row is the sum of their multisets.
pub proof fn lemma_multiset_of_four(a: Seq<Tile>, b: Seq<Tile>, c: Seq<Tile>, d: Seq<Tile>)
    ensures
        (a + b + c + d).to_multiset() == a.to_multiset().add(b.to_multiset()).add(
            c.to_multiset(),
        ).add(d.to_multiset()),
        (a + b + c).to_multiset() == a.to_multiset().add(b.to_multiset()).add(c.to_multiset()),
        (a + b).to_multiset() == a.to_multiset().add(b.to_multiset()),
{
    vstd::seq_lib::lemma_multiset_commutative(a + b + c, d);
    vstd::seq_lib::lemma_multiset_commutative(a + b, c);
    vstd::seq_lib::lemma_multiset_commutative(a, b);
}

impl AgariTilesets {
    #[verifier::type_invariant]
    pub open(crate) spec fn well_formed(self) -> bool {
        self@.wf()
    }

    /// Every way to take the hand apart: for each pair, for each set of
    /// triplets, the runs taken out of the rest, for each wait. Each result
    /// holds exactly the tiles of the table state, and a claimed winning
    /// tile that opened no group is the tile of the pair.
    pub fn enumerate(tilesets: &Tilesets) -> (r: Vec<AgariTilesets>)
        requires
            tilesets@.wf(),
        ensures
            agari_views(r@) == AgariView::enumerate(tilesets@),
            forall|i: int|
                0 <= i < r@.len() ==> (#[trigger] r@[i])@.wf() && r@[i]@.conserves(tilesets@)
                    && r@[i]@.homed(),
    {
        let mut hand = tilesets.hand.clone();
        hand.push(tilesets.last);
        let ghost ts = tilesets@;
        let ghost hl = hand@;
        let cands = enumerate_quetou(&hand);
        let ghost specs = quetou_candidates(hl);
        let mut res: Vec<AgariTilesets> = Vec::new();
        let mut i: usize = 0;
        proof {
            assert(agari_views(res@) =~= Seq::<AgariView>::empty());
            vstd::seq_lib::to_multiset_build(ts.hand, ts.last);
            assert(has_key(ts.hand.push(ts.last), ts.last.key())) by {
                assert(ts.hand.push(ts.last)[ts.hand.len() as int].key() == ts.last.key());
            }
            lemma_has_key_multiset(ts.hand.push(ts.last), hl, ts.last.key());
        }
        while i < cands.len()
            invariant
                ts == tilesets@,
                ts.wf(),
                hl.to_multiset() == ts.hand.push(ts.last).to_multiset(),
                hl.len() == ts.hand.len() + 1,
                has_key(hl, ts.last.key()),
                specs == quetou_candidates(hl),
                cands@.len() == specs.len(),
                forall|k: int|
                    0 <= k < cands@.len() ==> (#[trigger] cands@[k]).0@ == specs[k].0
                        && cands@[k].1@ == specs[k].1,
                forall|k: int|
                    0 <= k < cands@.len() ==> is_duizi((#[trigger] cands@[k]).0@)
                        && cands@[k].1@.len() + 2 == hl.len() && (cands@[k].0@
                        + cands@[k].1@).to_multiset() == hl.to_multiset(),
                i <= cands@.len(),
                agari_views(res@) == AgariView::for_quetous(ts, specs, i as int),
                forall|j: int|
                    0 <= j < res@.len() ==> (#[trigger] agari_views(res@)[j]).wf() && agari_views(
                        res@,
                    )[j].conserves(ts) && agari_views(res@)[j].homed(),
            decreases cands@.len() - i,
        {
            let ghost before = agari_views(res@);
            let quetou = &cands[i].0;
            let rest = &cands[i].1;
            proof {
                assert(quetou@ == specs[i as int].0 && rest@ == specs[i as int].1);
                lemma_has_key_multiset(hl, quetou@ + rest@, ts.last.key());
            }
            AgariTilesets::of_quetou(tilesets, quetou, rest, &mut res);
            proof {
                let fa = ts.angangs.flatten();
                lemma_multiset_of_four(quetou@, rest@, fa, Seq::empty());
                lemma_multiset_of_four(hl, fa, Seq::empty(), Seq::empty());
                lemma_multiset_of_four(ts.hand.push(ts.last), fa, Seq::empty(), Seq::empty());
                assert forall|j: int| 0 <= j < res@.len() implies (#[trigger] agari_views(
                    res@,
                )[j]).wf() && agari_views(res@)[j].conserves(ts) && agari_views(res@)[j].homed() by {
                    if j < before.len() {
                        assert(agari_views(res@) == AgariView::for_quetous(ts, specs, i as int)
                            + AgariView::for_choices(
                            ts,
                            quetou@,
                            kezi_candidates(rest@),
                            kezi_candidates(rest@).len() as int,
                        ));
                        assert(agari_views(res@)[j] == before[j]);
                    } else {
                        let added = AgariView::for_choices(
                            ts,
                            quetou@,
                            kezi_candidates(rest@),
                            kezi_candidates(rest@).len() as int,
                        );
                        assert(agari_views(res@) == before + added);
                        assert(agari_views(res@).len() == res@.len());
                        assert((before + added).len() == before.len() + added.len());
                        assert((before + added)[j] == added[j - before.len()]);
                        assert(added[j - before.len()].wf());
                    }
                }
            }
            i += 1;
        }
        proof {
            assert forall|j: int| 0 <= j < res@.len() implies (#[trigger] res@[j])@.wf()
                && res@[j]@.conserves(tilesets@) && res@[j]@.homed() by {
                assert(agari_views(res@)[j] == res@[j]@);
            }
        }
        res
    }

    /// Appends the hands with the pair `quetou`, the rest of the tiles being `rest`.
    fn of_quetou(tilesets: &Tilesets, quetou: &Tiles, rest: &Tiles, res: &mut Vec<AgariTilesets>)
        requires
            tilesets@.wf(),
            is_duizi(quetou@),
            rest@.len() + 2 == tilesets@.hand.len() + 1,
            has_key(quetou@ + rest@, tilesets@.last.key()),
        ensures
            agari_views(final(res)@) == agari_views(old(res)@) + AgariView::for_choices(
                tilesets@,
                quetou@,
                kezi_candidates(rest@),
                kezi_candidates(rest@).len() as int,
            ),
            forall|j: int|
                0 <= j < AgariView::for_choices(
                    tilesets@,
                    quetou@,
                    kezi_candidates(rest@),
                    kezi_candidates(rest@).len() as int,
                ).len() ==> {
                    let a = #[trigger] AgariView::for_choices(
                        tilesets@,
                        quetou@,
                        kezi_candidates(rest@),
                        kezi_candidates(rest@).len() as int,
                    )[j];
                    &&& a.wf()
                    &&& a.homed()
                    &&& a.concealed_tiles().to_multiset() == (quetou@ + rest@
                        + tilesets@.angangs.flatten()).to_multiset()
                    &&& a.tilesets == (TilesetsView { angangs: a.tilesets.angangs, ..tilesets@ })
                    &&& a.tilesets.angangs.flatten().len() <= tilesets@.angangs.flatten().len()
                },
    {
        let ghost ts = tilesets@;
        proof {
            lemma_group_starts_len(rest@, 3);
            assert(ts.num_tiles() == 14);
        }
        let choices = enumerate_kezi(rest);
        let ghost specs = kezi_candidates(rest@);
        let ghost base = agari_views(res@);
        let mut i: usize = 0;
        proof {
            assert(base + Seq::<AgariView>::empty() =~= base);
        }
        while i < choices.len()
            invariant
                ts == tilesets@,
                ts.wf(),
                is_duizi(quetou@),
                rest@.len() + 2 == ts.hand.len() + 1,
                has_key(quetou@ + rest@, ts.last.key()),
                specs == kezi_candidates(rest@),
                choices@.len() == specs.len(),
                forall|k: int|
                    0 <= k < choices@.len() ==> views((#[trigger] choices@[k]).0@) == specs[k].0
                        && choices@[k].1@ == specs[k].1,
                forall|k: int|
                    0 <= k < choices@.len() ==> {
                        &&& choices@[k].1@.len() + 3 * (#[trigger] choices@[k]).0@.len()
                            == rest@.len()
                        &&& choices@[k].0@.len() <= 4
                        &&& forall|x: int|
                            0 <= x < choices@[k].0@.len() ==> is_kezi(
                                #[trigger] choices@[k].0@[x]@,
                            )
                        &&& (views(choices@[k].0@).flatten() + choices@[k].1@).to_multiset()
                            == rest@.to_multiset()
                    },
                i <= choices@.len(),
                agari_views(res@) == base + AgariView::for_choices(ts, quetou@, specs, i as int),
                forall|j: int|
                    0 <= j < AgariView::for_choices(ts, quetou@, specs, i as int).len() ==> {
                        let a = #[trigger] AgariView::for_choices(ts, quetou@, specs, i as int)[j];
                        &&& a.wf()
                        &&& a.homed()
                        &&& a.concealed_tiles().to_multiset() == (quetou@ + rest@
                            + ts.angangs.flatten()).to_multiset()
                        &&& a.tilesets == (TilesetsView { angangs: a.tilesets.angangs, ..ts })
                        &&& a.tilesets.angangs.flatten().len() <= ts.angangs.flatten().len()
                    },
            decreases choices@.len() - i,
        {
            let ghost before = AgariView::for_choices(ts, quetou@, specs, i as int);
            let kezis = &choices[i].0;
            let rest2 = &choices[i].1;
            proof {
                assert(views(kezis@) == specs[i as int].0);
                assert forall|x: int| 0 <= x < views(kezis@).len() implies is_kezi(
                    #[trigger] views(kezis@)[x],
                ) by {
                    assert(views(kezis@)[x] == kezis@[x]@);
                }
                let k = ts.last.key();
                let fk = views(kezis@).flatten();
                lemma_has_key_add(quetou@, rest@, k);
                lemma_has_key_add(quetou@, fk + rest2@, k);
                if has_key(rest@, k) {
                    lemma_has_key_multiset(rest@, fk + rest2@, k);
                }
                assert(quetou@ + fk + rest2@ =~= quetou@ + (fk + rest2@));
            }
            AgariTilesets::of_choice(tilesets, quetou, kezis, rest2, res);
            proof {
                let added = AgariView::for_choice(ts, quetou@, views(kezis@), rest2@);
                let now = AgariView::for_choices(ts, quetou@, specs, i + 1);
                assert(now == before + added);
                assert(agari_views(res@) =~= base + now);
                let fk = views(kezis@).flatten();
                let fa = ts.angangs.flatten();
                lemma_multiset_of_four(quetou@, fk, rest2@, fa);
                lemma_multiset_of_four(quetou@, rest@, fa, Seq::empty());
                lemma_multiset_of_four(fk, rest2@, Seq::empty(), Seq::empty());
                assert forall|j: int| 0 <= j < now.len() implies {
                    let a = #[trigger] now[j];
                    &&& a.wf()
                    &&& a.homed()
                    &&& a.concealed_tiles().to_multiset() == (quetou@ + rest@
                        + ts.angangs.flatten()).to_multiset()
                    &&& a.tilesets == (TilesetsView { angangs: a.tilesets.angangs, ..ts })
                        &&& a.tilesets.angangs.flatten().len() <= ts.angangs.flatten().len()
                } by {
                    if j < before.len() {
                        assert(now[j] == before[j]);
                    } else {
                        assert(now[j] == added[j - before.len()]);
                    }
                }
            }
            i += 1;
        }
    }

    /// Appends the hands with the pair `quetou` and the triplets `kezis`,
    /// the rest of the tiles being `rest`.
    #[verifier::rlimit(30)]
    fn of_choice(
        tilesets: &Tilesets,
        quetou: &Tiles,
        kezis: &Vec<Tiles>,
        rest: &Tiles,
        res: &mut Vec<AgariTilesets>,
    )
        requires
            tilesets@.wf(),
            is_duizi(quetou@),
            forall|x: int| 0 <= x < views(kezis@).len() ==> is_kezi(#[trigger] views(kezis@)[x]),
            rest@.len() + 3 * kezis@.len() + 2 == tilesets@.hand.len() + 1,
            has_key(quetou@ + views(kezis@).flatten() + rest@, tilesets@.last.key()),
        ensures
            agari_views(final(res)@) == agari_views(old(res)@) + AgariView::for_choice(
                tilesets@,
                quetou@,
                views(kezis@),
                rest@,
            ),
            forall|j: int|
                0 <= j < AgariView::for_choice(tilesets@, quetou@, views(kezis@), rest@).len()
                    ==> {
                    let a = #[trigger] AgariView::for_choice(
                        tilesets@,
                        quetou@,
                        views(kezis@),
                        rest@,
                    )[j];
                    &&& a.wf()
                    &&& a.homed()
                    &&& a.concealed_tiles().to_multiset() == (quetou@ + views(kezis@).flatten()
                        + rest@ + tilesets@.angangs.flatten()).to_multiset()
                    &&& a.tilesets == (TilesetsView { angangs: a.tilesets.angangs, ..tilesets@ })
                    &&& a.tilesets.angangs.flatten().len() <= tilesets@.angangs.flatten().len()
                },
    {
        let ghost ts = tilesets@;
        let ghost base = agari_views(res@);
        proof {
            use_type_invariant(rest);
            assert(base + Seq::<AgariView>::empty() =~= base);
            lemma_extract_shunzi(rest@);
        }
        let shunzis = match extract_shunzi(rest.clone()) {
            Some(s) => s,
            None => {
                return ;
            },
        };
        let ghost ss = views(shunzis@);
        let ghost ks = views(kezis@);
        proof {
            assert(all_len(ss, 3)) by {
                assert forall|x: int| 0 <= x < ss.len() implies (#[trigger] ss[x]).len() == 3 by {
                    assert(is_shunzi(ss[x]));
                }
            }
            assert(all_nonempty(ks)) by {
                assert forall|x: int| 0 <= x < ks.len() implies (#[trigger] ks[x]).len() > 0 by {
                    assert(is_kezi(ks[x]));
                }
            }
        }
        let machis = enumerate_machis(quetou, shunzis.as_slice(), kezis.as_slice(), tilesets.last);
        let ghost specs = AgariView::for_machis(ts, quetou@, ks, ss, machis@);
        proof {
            let fk = ks.flatten();
            let fa = ts.angangs.flatten();
            lemma_multiset_of_four(quetou@, fk, ss.flatten(), fa);
            lemma_multiset_of_four(quetou@, fk, rest@, fa);
            lemma_has_key_add(quetou@ + fk, rest@, ts.last.key());
            lemma_has_key_add(quetou@ + fk, ss.flatten(), ts.last.key());
            if has_key(rest@, ts.last.key()) {
                lemma_has_key_multiset(rest@, ss.flatten(), ts.last.key());
            }
            assert(has_key(quetou@ + ks.flatten() + ss.flatten(), ts.last.key()));
            assert forall|j: int| 0 <= j < specs.len() implies {
                let a = #[trigger] specs[j];
                &&& a.wf()
                &&& a.homed()
                &&& a.concealed_tiles().to_multiset() == (quetou@ + ks.flatten() + rest@
                    + ts.angangs.flatten()).to_multiset()
                &&& a.tilesets == (TilesetsView { angangs: a.tilesets.angangs, ..ts })
                        &&& a.tilesets.angangs.flatten().len() <= ts.angangs.flatten().len()
            } by {
                lemma_make(ts, machis@[j], quetou@, ks, ss);
            }
        }
        let mut i: usize = 0;
        while i < machis.len()
            invariant
                ts == tilesets@,
                ts.wf(),
                is_duizi(quetou@),
                ks == views(kezis@),
                ss == views(shunzis@),
                forall|x: int| 0 <= x < ks.len() ==> is_kezi(#[trigger] ks[x]),
                forall|x: int| 0 <= x < ss.len() ==> is_shunzi(#[trigger] ss[x]),
                ts.pengs.len() + ts.chis.len() + ts.minggangs.len() + ts.angangs.len() + ks.len()
                    + ss.len() == 4,
                has_key(quetou@ + ks.flatten() + ss.flatten(), ts.last.key()),
                specs == AgariView::for_machis(ts, quetou@, ks, ss, machis@),
                i <= machis@.len(),
                agari_views(res@) == base + specs.take(i as int),
            decreases machis@.len() - i,
        {
            let ghost before = agari_views(res@);
            let a = AgariTilesets::new(
                tilesets.clone(),
                machis[i],
                quetou.clone(),
                clone_groups(kezis),
                clone_groups(&shunzis),
            );
            res.push(a);
            i += 1;
            proof {
                assert(agari_views(res@) =~= before.push(specs[i - 1]));
                assert(specs.take(i as int) =~= specs.take(i - 1).push(specs[i - 1]));
                assert(agari_views(res@) =~= base + specs.take(i as int));
            }
        }
        proof {
            assert(specs.take(machis@.len() as int) =~= specs);
        }
    }

    /// Puts a hand together and opens the group that a claimed winning tile completed.
    fn new(
        tilesets: Tilesets,
        machi: MachiKind,
        quetou: Tiles,
        kezis_in_hand: Vec<Tiles>,
        shunzis_in_hand: Vec<Tiles>,
    ) -> (r: AgariTilesets)
        requires
            tilesets@.groups_fit(),
            is_duizi(quetou@),
            forall|i: int|
                0 <= i < views(kezis_in_hand@).len() ==> is_kezi(
                    #[trigger] views(kezis_in_hand@)[i],
                ),
            forall|i: int|
                0 <= i < views(shunzis_in_hand@).len() ==> is_shunzi(
                    #[trigger] views(shunzis_in_hand@)[i],
                ),
            tilesets@.pengs.len() + tilesets@.chis.len() + tilesets@.minggangs.len()
                + tilesets@.angangs.len() + kezis_in_hand@.len() + shunzis_in_hand@.len() == 4,
            has_key(
                quetou@ + views(kezis_in_hand@).flatten() + views(shunzis_in_hand@).flatten(),
                tilesets@.last.key(),
            ),
        ensures
            r@ == AgariView::make(
                tilesets@,
                machi,
                quetou@,
                views(kezis_in_hand@),
                views(shunzis_in_hand@),
            ),
    {
        let mut tilesets = tilesets;
        let mut kezis_in_hand = kezis_in_hand;
        let mut shunzis_in_hand = shunzis_in_hand;
        proof {
            lemma_make(
                tilesets@,
                machi,
                quetou@,
                views(kezis_in_hand@),
                views(shunzis_in_hand@),
            );
            lemma_has_home(
                tilesets@.last,
                quetou@,
                tilesets@.angangs,
                views(kezis_in_hand@),
                views(shunzis_in_hand@),
            );
        }
        let rongming = fix_rong_an_mings(
            &mut tilesets,
            &quetou,
            &mut kezis_in_hand,
            &mut shunzis_in_hand,
        );
        AgariTilesets { tilesets, machi, rongming, quetou, kezis_in_hand, shunzis_in_hand }
    }
}

impl AgariTilesets {
    /// The claimed triplets.
    pub fn pengs(&self) -> (r: Vec<Tiles>)
        ensures
            views(r@) == self@.tilesets.pengs,
            self@.wf(),
    {
        proof {
            use_type_invariant(self);
        }
        clone_groups(&self.tilesets.pengs)
    }

    /// The claimed runs.
    pub fn chis(&self) -> (r: Vec<Tiles>)
        ensures
            views(r@) == self@.tilesets.chis,
            self@.wf(),
    {
        proof {
            use_type_invariant(self);
        }
        clone_groups(&self.tilesets.chis)
    }

    /// The open quads.
    pub fn minggangs(&self) -> (r: Vec<Tiles>)
        ensures
            views(r@) == self@.tilesets.minggangs,
            self@.wf(),
    {
        proof {
            use_type_invariant(self);
        }
        clone_groups(&self.tilesets.minggangs)
    }

    /// The concealed quads.
    pub fn angangs(&self) -> (r: Vec<Tiles>)
        ensures
            views(r@) == self@.tilesets.angangs,
            self@.wf(),
    {
        proof {
            use_type_invariant(self);
        }
        clone_groups(&self.tilesets.angangs)
    }

    /// The concealed triplets of the hand.
    pub fn kezis_in_hand(&self) -> (r: Vec<Tiles>)
        ensures
            views(r@) == self@.kezis_in_hand,
            self@.wf(),
    {
        proof {
            use_type_invariant(self);
        }
        clone_groups(&self.kezis_in_hand)
    }

    /// The concealed runs of the hand.
    pub fn shunzis_in_hand(&self) -> (r: Vec<Tiles>)
        ensures
            views(r@) == self@.shunzis_in_hand,
            self@.wf(),
    {
        proof {
            use_type_invariant(self);
        }
        clone_groups(&self.shunzis_in_hand)
    }

    /// The triplet or quad that a claimed winning tile opened, as a list of none or one.
    pub fn ronghe_mingke(&self) -> (r: Vec<Tiles>)
        ensures
            views(r@) == self@.rongming.mingkes(),
            self@.wf(),
    {
        proof {
            use_type_invariant(self);
        }
        self.rongming.iter_mingke()
    }

    /// The run that a claimed winning tile opened, as a list of none or one.
    pub fn ronghe_mingshun(&self) -> (r: Vec<Tiles>)
        ensures
            views(r@) == self@.rongming.mingshuns(),
            self@.wf(),
    {
        proof {
            use_type_invariant(self);
        }
        self.rongming.iter_mingshun()
    }

    /// The open triplets and quads: claimed triplets, open quads, and the triplet
    /// that a claimed winning tile opened.
    pub fn mingkes(&self) -> (r: Vec<Tiles>)
        ensures
            views(r@) == self@.mingkes(),
            self@.wf(),
    {
        proof {
            use_type_invariant(self);
        }
        let mut out: Vec<Tiles> = Vec::new();
        proof {
            assert(views(out@) =~= Seq::<Seq<Tile>>::empty());
        }
        let part = self.pengs();
        append_groups(&mut out, &part);
        let part = self.minggangs();
        append_groups(&mut out, &part);
        let part = self.ronghe_mingke();
        append_groups(&mut out, &part);
        proof {
            assert(views(out@) =~= self@.mingkes());
        }
        out
    }

    /// The concealed triplets and quads.
    pub fn ankes(&self) -> (r: Vec<Tiles>)
        ensures
            views(r@) == self@.ankes(),
            self@.wf(),
    {
        proof {
            use_type_invariant(self);
        }
        let mut out: Vec<Tiles> = Vec::new();
        proof {
            assert(views(out@) =~= Seq::<Seq<Tile>>::empty());
        }
        let part = self.kezis_in_hand();
        append_groups(&mut out, &part);
        let part = self.angangs();
        append_groups(&mut out, &part);
        proof {
            assert(views(out@) =~= self@.ankes());
        }
        out
    }

    /// The open runs: claimed runs, and the run that a claimed winning tile opened.
    pub fn mingshuns(&self) -> (r: Vec<Tiles>)
        ensures
            views(r@) == self@.mingshuns(),
            self@.wf(),
    {
        proof {
            use_type_invariant(self);
        }
        let mut out: Vec<Tiles> = Vec::new();
        proof {
            assert(views(out@) =~= Seq::<Seq<Tile>>::empty());
        }
        let part = self.chis();
        append_groups(&mut out, &part);
        let part = self.ronghe_mingshun();
        append_groups(&mut out, &part);
        proof {
            assert(views(out@) =~= self@.mingshuns());
        }
        out
    }

    /// The concealed runs.
    pub fn anshuns(&self) -> (r: Vec<Tiles>)
        ensures
            views(r@) == self@.anshuns(),
            self@.wf(),
    {
        proof {
            use_type_invariant(self);
        }
        self.shunzis_in_hand()
    }

    /// All triplets and quads, the open ones first.
    pub fn kezis(&self) -> (r: Vec<Tiles>)
        ensures
            views(r@) == self@.kezis(),
            self@.wf(),
    {
        proof {
            use_type_invariant(self);
        }
        let mut out: Vec<Tiles> = Vec::new();
        proof {
            assert(views(out@) =~= Seq::<Seq<Tile>>::empty());
        }
        let part = self.mingkes();
        append_groups(&mut out, &part);
        let part = self.ankes();
        append_groups(&mut out, &part);
        proof {
            assert(views(out@) =~= self@.kezis());
        }
        out
    }

    /// All runs, the open ones first.
    pub fn shunzis(&self) -> (r: Vec<Tiles>)
        ensures
            views(r@) == self@.shunzis(),
            self@.wf(),
    {
        proof {
            use_type_invariant(self);
        }
        let mut out: Vec<Tiles> = Vec::new();
        proof {
            assert(views(out@) =~= Seq::<Seq<Tile>>::empty());
        }
        let part = self.mingshuns();
        append_groups(&mut out, &part);
        let part = self.anshuns();
        append_groups(&mut out, &part);
        proof {
            assert(views(out@) =~= self@.shunzis());
        }
        out
    }

    /// All groups but the pair: triplets and quads, then runs.
    pub fn mianzis(&self) -> (r: Vec<Tiles>)
        ensures
            views(r@) == self@.mianzis(),
            self@.wf(),
    {
        proof {
            use_type_invariant(self);
        }
        let mut out: Vec<Tiles> = Vec::new();
        proof {
            assert(views(out@) =~= Seq::<Seq<Tile>>::empty());
        }
        let part = self.kezis();
        append_groups(&mut out, &part);
        let part = self.shunzis();
        append_groups(&mut out, &part);
        proof {
            assert(views(out@) =~= self@.mianzis());
        }
        out
    }

    /// The pair.
    pub fn quetou(&self) -> (r: &Tiles)
        ensures
            r@ == self@.quetou,
            self@.wf(),
    {
        proof {
            use_type_invariant(self);
        }
        &self.quetou
    }

    /// The wait.
    pub fn machi(&self) -> (r: MachiKind)
        ensures
            r == self@.machi,
    {
        self.machi
    }

    /// Whether the hand is concealed: no tile was claimed for a group.
    pub fn is_menqian(&self) -> (r: bool)
        ensures
            r == self@.tilesets.is_menqian(),
    {
        self.tilesets.is_menqian()
    }

    /// Whether the winning tile was drawn by the player.
    pub fn is_zimo(&self) -> (r: bool)
        ensures
            r == self@.tilesets.is_zimo,
    {
        self.tilesets.is_zimo
    }

    /// The context.
    pub fn context(&self) -> (r: &Context)
        ensures
            r@ == self@.tilesets.context,
    {
        &self.tilesets.context
    }

    /// The table state; a concealed quad that the winning tile opened has left it.
    pub fn tilesets(&self) -> (r: &Tilesets)
        ensures
            r@ == self@.tilesets,
            self@.wf(),
    {
        proof {
            use_type_invariant(self);
        }
        &self.tilesets
    }

    /// The hand as text: the groups, the pair, the wait.
    pub fn to_string(&self) -> (r: String)
        ensures
            r@ == self@.text(),
    {
        let mut out = String::new();
        let groups = self.mianzis();
        let mut i: usize = 0;
        while i < groups.len()
            invariant
                i <= groups@.len(),
                out@ == spaced_text(views(groups@.take(i as int))),
            decreases groups@.len() - i,
        {
            let t = groups[i].to_string();
            out.append(t.as_str());
            out.append(" ");
            i += 1;
            proof {
                let cur = views(groups@.take(i as int));
                assert(cur.drop_last() =~= views(groups@.take(i - 1)));
                assert(cur.last() == groups@[i - 1]@);
            }
        }
        proof {
            assert(groups@.take(groups@.len() as int) =~= groups@);
        }
        let q = self.quetou.to_string();
        out.append(q.as_str());
        out.append(" ");
        out.append("待ち: ");
        out.append(self.machi.as_str());
        proof {
            assert(out@ =~= self@.text());
        }
        out
    }
}

impl Clone for AgariTilesets {
    fn clone(&self) -> (r: AgariTilesets)
        ensures
            r@ == self@,
    {
        proof {
            use_type_invariant(self);
        }
        AgariTilesets {
            tilesets: self.tilesets.clone(),
            machi: self.machi,
            rongming: self.rongming.clone(),
            quetou: self.quetou.clone(),
            kezis_in_hand: clone_groups(&self.kezis_in_hand),
            shunzis_in_hand: clone_groups(&self.shunzis_in_hand),
        }
    }
}

} // verus!
