//! Groups of tiles, kept sorted.

use crate::sorting::{
    insert_by, insert_position, lemma_insert_by, lemma_insert_position,
    lemma_insert_position_unique, lemma_sort_by, lemma_sort_by_all, lemma_sort_by_sorted, sort_by,
    sorted_by,
};
use crate::tile::{ParseError as ParseTileError, Tile, TileKind};
use crate::utils::chars_of;
use vstd::prelude::*;

verus! {

/// A group of tiles, always sorted; tiles that differ in the red flag alone
/// keep the order in which they came.
#[derive(Debug)]
pub struct Tiles(pub(crate) Vec<Tile>);

/// An error on a group of tiles; it carries the group.
#[derive(Debug)]
pub enum Error {
    /// The winning tile is not exactly one tile.
    InvalidLastTile(Tiles),
    /// Not three (or, for a quad, four) tiles, or not all the same tile.
    InvalidPeng(Tiles),
    /// Three tiles that are not a run.
    InvalidChi(Tiles),
    /// A quad that is no quad.
    InvalidGang(Tiles),
}

/// What an error on a group holds, as plain values.
pub enum ErrorView {
    InvalidLastTile(Seq<Tile>),
    InvalidPeng(Seq<Tile>),
    InvalidChi(Seq<Tile>),
    InvalidGang(Seq<Tile>),
}

impl View for Error {
    type V = ErrorView;

    open spec fn view(&self) -> ErrorView {
        match self {
            Error::InvalidLastTile(t) => ErrorView::InvalidLastTile(t@),
            Error::InvalidPeng(t) => ErrorView::InvalidPeng(t@),
            Error::InvalidChi(t) => ErrorView::InvalidChi(t@),
            Error::InvalidGang(t) => ErrorView::InvalidGang(t@),
        }
    }
}

/// An error raised when a group of tiles is read from text.
#[derive(Debug, Copy, Clone, PartialEq, Eq, Structural)]
pub enum ParseError {
    /// A tile could not be read.
    ParseTileError(ParseTileError),
    /// A suit letter with no rank before it.
    EmptyBroadcast,
    /// Ranks that no suit letter follows.
    UnterminatedBroadcast,
}

/// The key by which tiles are sorted.
pub open spec fn tile_key() -> spec_fn(Tile) -> int {
    |t: Tile| t.key()
}

/// Whether every tile of `s` is valid.
pub open spec fn all_valid(s: Seq<Tile>) -> bool {
    forall|i: int| 0 <= i < s.len() ==> (#[trigger] s[i]).valid()
}

/// The tiles of `s` in sorted order.
pub open spec fn sort_tiles(s: Seq<Tile>) -> Seq<Tile> {
    sort_by(s, tile_key())
}

/// Whether `s` is sorted.
pub open spec fn is_sorted(s: Seq<Tile>) -> bool {
    sorted_by(s, tile_key())
}

/// Whether `a` and `b` hold the same tiles in the same places, red flags aside.
pub open spec fn same_tiles(a: Seq<Tile>, b: Seq<Tile>) -> bool {
    a.len() == b.len() && forall|i: int|
        0 <= i < a.len() ==> (#[trigger] a[i]).key() == b[i].key()
}

/// Whether all tiles of `s` are the same tile, red flags aside.
pub open spec fn all_same(s: Seq<Tile>) -> bool {
    forall|i: int| 0 <= i < s.len() ==> (#[trigger] s[i]).key() == s[0].key()
}

/// Whether `s` is a triplet: three times the same tile.
pub open spec fn is_kezi(s: Seq<Tile>) -> bool {
    s.len() == 3 && all_same(s)
}

/// Whether `s` is a quad: four times the same tile.
pub open spec fn is_gangzi(s: Seq<Tile>) -> bool {
    s.len() == 4 && all_same(s)
}

/// Whether `s` is a pair: twice the same tile.
pub open spec fn is_duizi(s: Seq<Tile>) -> bool {
    s.len() == 2 && all_same(s)
}

/// Whether `s` is a run: three consecutive ranks of one suit, in rising order.
pub open spec fn is_shunzi(s: Seq<Tile>) -> bool {
    &&& s.len() == 3
    &&& s[0].spec_kind() != TileKind::Zipai
    &&& s[1].spec_kind() == s[0].spec_kind()
    &&& s[2].spec_kind() == s[0].spec_kind()
    &&& s[1].key() == s[0].key() + 1
    &&& s[2].key() == s[0].key() + 2
}

/// How often the tile with key `k` occurs in `s`.
pub open spec fn count_key(s: Seq<Tile>, k: int) -> nat
    decreases s.len(),
{
    if s.len() == 0 {
        0
    } else {
        count_key(s.drop_last(), k) + if s.last().key() == k {
            1nat
        } else {
            0nat
        }
    }
}

/// Whether `s` holds the tile with key `k`.
pub open spec fn has_key(s: Seq<Tile>, k: int) -> bool {
    exists|i: int| 0 <= i < s.len() && (#[trigger] s[i]).key() == k
}

/// The text of the tiles, one after the other.
pub open spec fn tiles_text(s: Seq<Tile>) -> Seq<char>
    decreases s.len(),
{
    if s.len() == 0 {
        Seq::empty()
    } else {
        tiles_text(s.drop_last()) + s.last().text()
    }
}

/// Sorts tiles, keeping the order of equal tiles.
pub fn sort_vec(v: &Vec<Tile>) -> (r: Vec<Tile>)
    ensures
        r@ == sort_tiles(v@),
        is_sorted(r@),
        all_valid(r@),
        all_valid(v@),
        r@.len() == v@.len(),
        r@.to_multiset() == v@.to_multiset(),
{
    let mut out: Vec<Tile> = Vec::new();
    let mut i: usize = 0;
    while i < v.len()
        invariant
            i <= v.len(),
            out@ == sort_by(v@.take(i as int), tile_key()),
            out@.len() == i,
            forall|k: int| 0 <= k < i ==> (#[trigger] v@[k]).valid(),
        decreases v.len() - i,
    {
        let t = v[i];
        let k: u16 = t.index();
        let mut p: usize = out.len();
        while p > 0 && out[p - 1].index() > k
            invariant
                p <= out.len(),
                forall|j: int| p <= j < out@.len() ==> tile_key()(out@[j]) > tile_key()(t),
                k == t.key(),
            decreases p,
        {
            p -= 1;
        }
        proof {
            lemma_insert_position_unique(out@, t, tile_key(), p as int);
            assert(v@.take(i + 1).drop_last() =~= v@.take(i as int));
            assert(v@.take(i + 1).last() == t);
        }
        out.insert(p, t);
        i += 1;
    }
    proof {
        assert(v@.take(v.len() as int) =~= v@);
        lemma_sort_by(v@, tile_key());
        lemma_sort_by_all(v@, tile_key(), |t: Tile| t.valid());
    }
    out
}

/// A sorted sequence stays sorted when one tile is taken out.
pub proof fn lemma_remove_sorted(s: Seq<Tile>, i: int)
    requires
        is_sorted(s),
        0 <= i < s.len(),
    ensures
        is_sorted(s.remove(i)),
{
    let r = s.remove(i);
    assert forall|a: int, b: int| 0 <= a < b < r.len() implies tile_key()(r[a]) <= tile_key()(
        r[b],
    ) by {
        let x = if a < i { a } else { a + 1 };
        let y = if b < i { b } else { b + 1 };
        assert(r[a] == s[x] && r[b] == s[y]);
    }
}

/// Sequences of the same tiles hold the same keys.
pub proof fn lemma_has_key_multiset(a: Seq<Tile>, b: Seq<Tile>, k: int)
    requires
        a.to_multiset() == b.to_multiset(),
        has_key(a, k),
    ensures
        has_key(b, k),
{
    let i = choose|i: int| 0 <= i < a.len() && (#[trigger] a[i]).key() == k;
    let t = a[i];
    vstd::seq_lib::to_multiset_contains(a, t);
    vstd::seq_lib::to_multiset_contains(b, t);
    assert(a.contains(t));
    assert(b.contains(t));
    let j = choose|j: int| 0 <= j < b.len() && b[j] == t;
    assert(b[j].key() == k);
}

/// Being the same tiles, red flags aside, goes both ways and carries over.
pub proof fn lemma_same_tiles(a: Seq<Tile>, b: Seq<Tile>, c: Seq<Tile>)
    ensures
        same_tiles(a, a),
        same_tiles(a, b) ==> same_tiles(b, a),
        same_tiles(a, b) && same_tiles(b, c) ==> same_tiles(a, c),
{
    if same_tiles(a, b) {
        assert forall|i: int| 0 <= i < b.len() implies (#[trigger] b[i]).key() == a[i].key() by {
            assert(a[i].key() == b[i].key());
        }
        if same_tiles(b, c) {
            assert forall|i: int| 0 <= i < a.len() implies (#[trigger] a[i]).key()
                == c[i].key() by {
                assert(b[i].key() == c[i].key());
            }
        }
    }
}

/// Sorting looks at the keys alone: sequences of the same tiles, red flags
/// aside, are sorted into sequences of the same tiles.
pub proof fn lemma_sort_same_tiles(a: Seq<Tile>, b: Seq<Tile>)
    requires
        same_tiles(a, b),
    ensures
        same_tiles(sort_tiles(a), sort_tiles(b)),
    decreases a.len(),
{
    if a.len() > 0 {
        let da = a.drop_last();
        let db = b.drop_last();
        assert forall|i: int| 0 <= i < da.len() implies (#[trigger] da[i]).key()
            == db[i].key() by {
            assert(a[i].key() == b[i].key());
        }
        lemma_sort_same_tiles(da, db);
        let sa = sort_tiles(da);
        let sb = sort_tiles(db);
        let x = a.last();
        let y = b.last();
        assert(x.key() == y.key()) by {
            assert(a[a.len() - 1].key() == b[a.len() - 1].key());
        }
        lemma_insert_position(sa, x, tile_key());
        let p = insert_position(sa, x, tile_key());
        assert forall|j: int| p <= j < sb.len() implies tile_key()(sb[j]) > tile_key()(y) by {
            assert(sa[j].key() == sb[j].key());
        }
        if p > 0 {
            assert(sa[p - 1].key() == sb[p - 1].key());
        }
        lemma_insert_position_unique(sb, y, tile_key(), p);
        let ra = sa.insert(p, x);
        let rb = sb.insert(p, y);
        assert forall|i: int| 0 <= i < ra.len() implies (#[trigger] ra[i]).key()
            == rb[i].key() by {
            if i < p {
                assert(sa[i].key() == sb[i].key());
            } else if i > p {
                assert(sa[i - 1].key() == sb[i - 1].key());
            }
        }
    }
}

/// A tile put into a sorted sequence and the first tile equal to it taken
/// out again leave the same tiles, red flags aside.
pub proof fn lemma_push_remove(w: Seq<Tile>, x: Tile, p: int)
    requires
        is_sorted(w),
        0 <= p < sort_tiles(w.push(x)).len(),
        sort_tiles(w.push(x))[p].key() == x.key(),
        forall|j: int| 0 <= j < p ==> (#[trigger] sort_tiles(w.push(x))[j]).key() != x.key(),
    ensures
        same_tiles(sort_tiles(w.push(x)).remove(p), w),
{
    let with = sort_tiles(w.push(x));
    assert(w.push(x).drop_last() =~= w);
    lemma_sort_by_sorted(w, tile_key());
    assert(with == insert_by(w, x, tile_key()));
    lemma_insert_position(w, x, tile_key());
    lemma_insert_by(w, x, tile_key());
    let pos = insert_position(w, x, tile_key());
    assert(with[pos] == x);
    assert(p <= pos);
    let r = with.remove(p);
    assert forall|i: int| 0 <= i < r.len() implies (#[trigger] r[i]).key() == w[i].key() by {
        if i < p {
            assert(r[i] == with[i] && with[i] == w[i]);
        } else if i < pos {
            assert(r[i] == with[i + 1]);
            assert(w[i] == with[i]);
            assert(tile_key()(with[p]) <= tile_key()(with[i]));
            assert(tile_key()(with[i]) <= tile_key()(with[pos]));
            assert(tile_key()(with[p]) <= tile_key()(with[i + 1]));
            assert(i + 1 == pos || tile_key()(with[i + 1]) <= tile_key()(with[pos]));
        } else {
            assert(r[i] == with[i + 1]);
        }
    }
}

impl View for Tiles {
    type V = Seq<Tile>;

    open(crate) spec fn view(&self) -> Seq<Tile> {
        self.0@
    }
}

impl DeepView for Tiles {
    type V = Seq<Tile>;

    open spec fn deep_view(&self) -> Seq<Tile> {
        self@
    }
}

impl Tiles {
    #[verifier::type_invariant]
    pub open(crate) spec fn well_formed(self) -> bool {
        is_sorted(self.0@) && all_valid(self.0@)
    }

    /// Builds a group from tiles in any order.
    pub fn new(tiles: Vec<Tile>) -> (r: Tiles)
        ensures
            r@ == sort_tiles(tiles@),
            r@.len() == tiles@.len(),
            r@.to_multiset() == tiles@.to_multiset(),
    {
        Tiles(sort_vec(&tiles))
    }

    /// The tiles.
    pub fn into_inner(self) -> (r: Vec<Tile>)
        ensures
            r@ == self@,
            is_sorted(r@),
            all_valid(r@),
    {
        proof {
            use_type_invariant(&self);
        }
        self.0
    }

    /// The tiles.
    pub fn inner(&self) -> (r: &Vec<Tile>)
        ensures
            r@ == self@,
            is_sorted(r@),
            all_valid(r@),
    {
        proof {
            use_type_invariant(self);
        }
        &self.0
    }

    /// The number of tiles.
    pub fn len(&self) -> (r: usize)
        ensures
            r == self@.len(),
            is_sorted(self@),
            all_valid(self@),
    {
        proof {
            use_type_invariant(self);
        }
        self.0.len()
    }

    /// Whether there is no tile.
    pub fn is_empty(&self) -> (r: bool)
        ensures
            r == (self@.len() == 0),
    {
        self.0.len() == 0
    }

    /// The tile at place `i`.
    pub fn get(&self, i: usize) -> (r: Tile)
        requires
            i < self@.len(),
        ensures
            r == self@[i as int],
            r.valid(),
    {
        proof {
            use_type_invariant(self);
        }
        self.0[i]
    }

    /// The first tile.
    pub fn first(&self) -> (r: Tile)
        requires
            self@.len() > 0,
        ensures
            r == self@[0],
            r.valid(),
    {
        self.get(0)
    }

    /// The last tile.
    pub fn last(&self) -> (r: Tile)
        requires
            self@.len() > 0,
        ensures
            r == self@.last(),
            r.valid(),
    {
        self.get(self.0.len() - 1)
    }

    /// The middle tile of three.
    pub fn middle(&self) -> (r: Tile)
        requires
            self@.len() == 3,
        ensures
            r == self@[1],
            r.valid(),
    {
        self.get(1)
    }

    /// The place of the first tile equal to `t`, red flags aside.
    pub fn position(&self, t: Tile) -> (r: Option<usize>)
        ensures
            match r {
                Some(p) => p < self@.len() && self@[p as int].key() == t.key() && forall|j: int|
                    0 <= j < p ==> self@[j].key() != t.key(),
                None => !has_key(self@, t.key()),
            },
    {
        let k: u16 = t.index();
        let mut i: usize = 0;
        while i < self.0.len()
            invariant
                i <= self.0@.len(),
                k == t.key(),
                forall|j: int| 0 <= j < i ==> self.0@[j].key() != t.key(),
            decreases self.0@.len() - i,
        {
            if self.0[i].index() == k {
                return Some(i);
            }
            i += 1;
        }
        None
    }

    /// Whether the group holds a tile equal to `t`, red flags aside.
    pub fn contains(&self, t: Tile) -> (r: bool)
        ensures
            r == has_key(self@, t.key()),
    {
        self.position(t).is_some()
    }

    /// Accepts the group as a winning tile: exactly one tile.
    pub fn check_last_tile(self) -> (r: Result<Tiles, Error>)
        ensures
            match r {
                Ok(t) => self@.len() == 1 && t@ == self@,
                Err(Error::InvalidLastTile(t)) => self@.len() != 1 && t@ == self@,
                Err(_) => false,
            },
    {
        if self.len() != 1 {
            return Err(Error::InvalidLastTile(self));
        }
        Ok(self)
    }

    /// Accepts the group as a claimed triplet: three times the same tile.
    pub fn check_peng(self) -> (r: Result<Tiles, Error>)
        ensures
            match r {
                Ok(t) => is_kezi(self@) && t@ == self@,
                Err(Error::InvalidPeng(t)) => !is_kezi(self@) && t@ == self@,
                Err(_) => false,
            },
    {
        if self.len() != 3 {
            return Err(Error::InvalidPeng(self));
        }
        self.check_kezi()
    }

    /// Accepts the group as a claimed run: three consecutive ranks of one
    /// suit. A group of another size is refused as a triplet is.
    pub fn check_chi(self) -> (r: Result<Tiles, Error>)
        ensures
            match r {
                Ok(t) => is_shunzi(self@) && t@ == self@,
                Err(Error::InvalidPeng(t)) => self@.len() != 3 && t@ == self@,
                Err(Error::InvalidChi(t)) => self@.len() == 3 && !is_shunzi(self@) && t@
                    == self@,
                Err(_) => false,
            },
    {
        if self.len() != 3 {
            return Err(Error::InvalidPeng(self));
        }
        let a = self.get(0);
        let b = self.get(1);
        let c = self.get(2);
        let ka: u16 = a.index();
        let kb: u16 = b.index();
        let kc: u16 = c.index();
        let suited = match a.kind() {
            TileKind::Zipai => false,
            _ => true,
        };
        if suited && kb == ka + 1 && kc == ka + 2 && kc / 256 == ka / 256 {
            Ok(self)
        } else {
            Err(Error::InvalidChi(self))
        }
    }

    /// Accepts the group as a quad: four times the same tile. A group that
    /// fails is refused as a triplet is.
    pub fn check_gang(self) -> (r: Result<Tiles, Error>)
        ensures
            match r {
                Ok(t) => is_gangzi(self@) && t@ == self@,
                Err(Error::InvalidPeng(t)) => !is_gangzi(self@) && t@ == self@,
                Err(_) => false,
            },
    {
        if self.len() != 4 {
            return Err(Error::InvalidPeng(self));
        }
        self.check_kezi()
    }

    /// Accepts a group whose tiles are all the same tile.
    fn check_kezi(self) -> (r: Result<Tiles, Error>)
        requires
            self@.len() > 0,
        ensures
            match r {
                Ok(t) => all_same(self@) && t@ == self@,
                Err(Error::InvalidPeng(t)) => !all_same(self@) && t@ == self@,
                Err(_) => false,
            },
    {
        let k: u16 = self.get(0).index();
        let mut i: usize = 1;
        while i < self.len()
            invariant
                1 <= i <= self@.len(),
                k == self@[0].key(),
                forall|j: int| 0 <= j < i ==> self@[j].key() == k,
            decreases self@.len() - i,
        {
            if self.get(i).index() != k {
                return Err(Error::InvalidPeng(self));
            }
            i += 1;
        }
        Ok(self)
    }

    /// Adds a tile and sorts again.
    pub fn push(&mut self, tile: Tile)
        ensures
            final(self)@ == sort_tiles(old(self)@.push(tile)),
            final(self)@.len() == old(self)@.len() + 1,
            final(self)@.to_multiset() == old(self)@.to_multiset().insert(tile),
    {
        let mut v = self.0.clone();
        proof {
            assert(v@ =~= self.0@);
            vstd::seq_lib::to_multiset_build(v@, tile);
        }
        v.push(tile);
        self.0 = sort_vec(&v);
    }

    /// Takes the last tile out, if there is one.
    pub fn pop(&mut self) -> (r: Option<Tile>)
        ensures
            old(self)@.len() > 0 ==> r == Some(old(self)@.last()) && final(self)@ == old(
                self,
            )@.drop_last(),
            old(self)@.len() == 0 ==> r.is_none() && final(self)@ == old(self)@,
    {
        proof {
            use_type_invariant(&*self);
        }
        let n = self.0.len();
        if n == 0 {
            return None;
        }
        let t = self.remove(n - 1);
        proof {
            assert(old(self)@.remove(n - 1) =~= old(self)@.drop_last());
        }
        Some(t)
    }

    /// Takes the tile at place `idx` out.
    pub fn remove(&mut self, idx: usize) -> (r: Tile)
        requires
            idx < old(self)@.len(),
        ensures
            r == old(self)@[idx as int],
            r.valid(),
            final(self)@ == old(self)@.remove(idx as int),
    {
        proof {
            use_type_invariant(&*self);
            lemma_remove_sorted(self.0@, idx as int);
        }
        let mut v = self.0.clone();
        proof {
            assert(v@ =~= self.0@);
        }
        let t = v.remove(idx);
        self.0 = v;
        t
    }

    /// Takes the tiles at places `start .. end` out and returns them.
    pub fn drain(&mut self, start: usize, end: usize) -> (r: Vec<Tile>)
        requires
            start <= end <= old(self)@.len(),
        ensures
            r@ == old(self)@.subrange(start as int, end as int),
            final(self)@ == old(self)@.subrange(0, start as int) + old(self)@.subrange(
                end as int,
                old(self)@.len() as int,
            ),
    {
        proof {
            use_type_invariant(&*self);
        }
        let mut taken: Vec<Tile> = Vec::new();
        let mut rest: Vec<Tile> = Vec::new();
        let n = self.0.len();
        let mut i: usize = 0;
        while i < n
            invariant
                n == self.0@.len(),
                start <= end <= n,
                i <= n,
                taken@ == self.0@.subrange(
                    start as int,
                    if i < start {
                        start as int
                    } else if i < end {
                        i as int
                    } else {
                        end as int
                    },
                ),
                rest@ == self.0@.subrange(
                    0,
                    if i < start {
                        i as int
                    } else {
                        start as int
                    },
                ) + self.0@.subrange(
                    end as int,
                    if i < end {
                        end as int
                    } else {
                        i as int
                    },
                ),
            decreases n - i,
        {
            let ghost before_taken = taken@;
            let ghost before_rest = rest@;
            if start <= i && i < end {
                taken.push(self.0[i]);
            } else {
                rest.push(self.0[i]);
            }
            i += 1;
            proof {
                let s = self.0@;
                let a = start as int;
                let b = end as int;
                let hi_t = if i < start { a } else if i < end { i as int } else { b };
                let lo_r = if i < start { i as int } else { a };
                let hi_r = if i < end { b } else { i as int };
                assert(taken@ =~= s.subrange(a, hi_t));
                assert(rest@ =~= s.subrange(0, lo_r) + s.subrange(b, hi_r));
            }
        }
        proof {
            let s = self.0@;
            let r = rest@;
            assert forall|x: int, y: int| 0 <= x < y < r.len() implies tile_key()(r[x])
                <= tile_key()(r[y]) by {
                let xi = if x < start { x } else { x - start + end };
                let yi = if y < start { y } else { y - start + end };
                assert(r[x] == s[xi] && r[y] == s[yi]);
            }
            assert forall|x: int| 0 <= x < r.len() implies (#[trigger] r[x]).valid() by {
                let xi = if x < start { x } else { x - start + end };
                assert(r[x] == s[xi]);
            }
        }
        self.0 = rest;
        taken
    }

    /// The text of the tiles, one after the other.
    pub fn to_string(&self) -> (r: String)
        ensures
            r@ == tiles_text(self@),
    {
        let mut out = String::new();
        let mut i: usize = 0;
        while i < self.0.len()
            invariant
                i <= self.0@.len(),
                out@ == tiles_text(self.0@.take(i as int)),
            decreases self.0@.len() - i,
        {
            let t = self.0[i].to_string();
            out.append(t.as_str());
            i += 1;
            proof {
                assert(self.0@.take(i as int).drop_last() =~= self.0@.take(i - 1));
            }
        }
        proof {
            assert(self.0@.take(self.0@.len() as int) =~= self.0@);
        }
        out
    }
}

/// Whether `c` is a rank from 1 to 9.
pub open spec fn is_rank_char(c: char) -> bool {
    49 <= c as u32 <= 57
}

/// Whether `c` is a suit letter: one of `s m p`, their capitals, or `z`.
pub open spec fn is_suit_char(c: char) -> bool {
    c == 's' || c == 'm' || c == 'p' || c == 'S' || c == 'M' || c == 'P' || c == 'z'
}

/// The tiles that the ranks `pending` name under the suit letter `ch`, or
/// the error of the first rank that names none.
pub open spec fn expand(pending: Seq<char>, ch: char) -> Result<Seq<Tile>, ParseError>
    decreases pending.len(),
{
    if pending.len() == 0 {
        Ok(Seq::empty())
    } else {
        match expand(pending.drop_last(), ch) {
            Err(e) => Err(e),
            Ok(ts) => match Tile::spec_parse(seq![pending.last(), ch]) {
                Err(e) => Err(ParseError::ParseTileError(e)),
                Ok(t) => Ok(ts.push(t)),
            },
        }
    }
}

/// One step of reading: from the ranks not yet given a suit and the tiles
/// read so far, over the character `ch`.
pub open spec fn scan_step(pending: Seq<char>, tiles: Seq<Tile>, ch: char) -> Result<
    (Seq<char>, Seq<Tile>),
    ParseError,
> {
    if is_rank_char(ch) {
        Ok((pending.push(ch), tiles))
    } else if is_suit_char(ch) {
        if pending.len() == 0 {
            Err(ParseError::EmptyBroadcast)
        } else {
            match expand(pending, ch) {
                Err(e) => Err(e),
                Ok(ts) => Ok((Seq::empty(), tiles + ts)),
            }
        }
    } else if pending.len() != 0 {
        Err(ParseError::UnterminatedBroadcast)
    } else {
        match Tile::spec_parse(seq![ch]) {
            Err(e) => Err(ParseError::ParseTileError(e)),
            Ok(t) => Ok((pending, tiles.push(t))),
        }
    }
}

/// Reading a text from the left: the ranks still without a suit and the
/// tiles read, or the first error.
pub open spec fn scan(s: Seq<char>) -> Result<(Seq<char>, Seq<Tile>), ParseError>
    decreases s.len(),
{
    if s.len() == 0 {
        Ok((Seq::empty(), Seq::empty()))
    } else {
        match scan(s.drop_last()) {
            Err(e) => Err(e),
            Ok((pending, tiles)) => scan_step(pending, tiles, s.last()),
        }
    }
}

/// The group that a text names: tiles one by one (`1s2s`, `東`), or ranks
/// that share a suit letter (`123s`). Ranks left without a suit letter at
/// the end are dropped.
pub open spec fn spec_parse_tiles(s: Seq<char>) -> Result<Seq<Tile>, ParseError> {
    match scan(s) {
        Err(e) => Err(e),
        Ok((_, tiles)) => Ok(sort_tiles(tiles)),
    }
}

/// An error in a part of the text read from the left is the error of the whole.
pub proof fn lemma_scan_prefix_error(s: Seq<char>, i: int)
    requires
        0 <= i <= s.len(),
        scan(s.take(i)) is Err,
    ensures
        scan(s) == scan(s.take(i)),
    decreases s.len(),
{
    if i == s.len() {
        assert(s.take(i) =~= s);
    } else {
        assert(s.drop_last().take(i) =~= s.take(i));
        lemma_scan_prefix_error(s.drop_last(), i);
    }
}

impl Tiles {
    /// Reads the tiles that the ranks `pending` name under the suit letter `ch`.
    fn parse_expand(pending: &Vec<char>, ch: char) -> (r: Result<Vec<Tile>, ParseError>)
        ensures
            match r {
                Ok(v) => expand(pending@, ch) == Ok::<Seq<Tile>, ParseError>(v@),
                Err(e) => expand(pending@, ch) == Err::<Seq<Tile>, ParseError>(e),
            },
    {
        let mut out: Vec<Tile> = Vec::new();
        let mut i: usize = 0;
        while i < pending.len()
            invariant
                i <= pending@.len(),
                expand(pending@.take(i as int), ch) == Ok::<Seq<Tile>, ParseError>(out@),
            decreases pending@.len() - i,
        {
            let pair: Vec<char> = vec![pending[i], ch];
            proof {
                assert(pair@ =~= seq![pending@[i as int], ch]);
                assert(pending@.take(i + 1).drop_last() =~= pending@.take(i as int));
            }
            match Tile::parse_chars(&pair) {
                Ok(t) => {
                    out.push(t);
                },
                Err(e) => {
                    proof {
                        lemma_expand_prefix_error(pending@, ch, i + 1);
                    }
                    return Err(ParseError::ParseTileError(e));
                },
            }
            i += 1;
        }
        proof {
            assert(pending@.take(pending@.len() as int) =~= pending@);
        }
        Ok(out)
    }

    /// Reads a group from the characters of its text.
    pub fn parse_chars(chars: &Vec<char>) -> (r: Result<Tiles, ParseError>)
        ensures
            match r {
                Ok(t) => spec_parse_tiles(chars@) == Ok::<Seq<Tile>, ParseError>(t@),
                Err(e) => spec_parse_tiles(chars@) == Err::<Seq<Tile>, ParseError>(e),
            },
    {
        let mut res: Vec<Tile> = Vec::new();
        let mut pending: Vec<char> = Vec::new();
        let mut i: usize = 0;
        while i < chars.len()
            invariant
                i <= chars@.len(),
                scan(chars@.take(i as int)) == Ok::<(Seq<char>, Seq<Tile>), ParseError>(
                    (pending@, res@),
                ),
            decreases chars@.len() - i,
        {
            let ch = chars[i];
            let code: u32 = ch as u32;
            proof {
                assert(chars@.take(i + 1).drop_last() =~= chars@.take(i as int));
                assert(chars@.take(i + 1).last() == ch);
            }
            if 49 <= code && code <= 57 {
                pending.push(ch);
            } else if ch == 's' || ch == 'm' || ch == 'p' || ch == 'S' || ch == 'M' || ch == 'P'
                || ch == 'z' {
                if pending.len() == 0 {
                    proof {
                        lemma_scan_prefix_error(chars@, i + 1);
                    }
                    return Err(ParseError::EmptyBroadcast);
                }
                match Tiles::parse_expand(&pending, ch) {
                    Ok(mut ts) => {
                        res.append(&mut ts);
                        pending = Vec::new();
                    },
                    Err(e) => {
                        proof {
                            lemma_scan_prefix_error(chars@, i + 1);
                        }
                        return Err(e);
                    },
                }
            } else {
                if pending.len() != 0 {
                    proof {
                        lemma_scan_prefix_error(chars@, i + 1);
                    }
                    return Err(ParseError::UnterminatedBroadcast);
                }
                let single: Vec<char> = vec![ch];
                proof {
                    assert(single@ =~= seq![ch]);
                }
                match Tile::parse_chars(&single) {
                    Ok(t) => {
                        res.push(t);
                    },
                    Err(e) => {
                        proof {
                            lemma_scan_prefix_error(chars@, i + 1);
                        }
                        return Err(ParseError::ParseTileError(e));
                    },
                }
            }
            i += 1;
        }
        proof {
            assert(chars@.take(chars@.len() as int) =~= chars@);
        }
        Ok(Tiles::new(res))
    }

    /// Reads a group from its text.
    pub fn parse(s: &str) -> (r: Result<Tiles, ParseError>)
        ensures
            match r {
                Ok(t) => spec_parse_tiles(s@) == Ok::<Seq<Tile>, ParseError>(t@),
                Err(e) => spec_parse_tiles(s@) == Err::<Seq<Tile>, ParseError>(e),
            },
    {
        let chars = chars_of(s);
        Tiles::parse_chars(&chars)
    }
}

/// An error on some of the ranks, taken from the left, is the error on all of them.
pub proof fn lemma_expand_prefix_error(pending: Seq<char>, ch: char, i: int)
    requires
        0 <= i <= pending.len(),
        expand(pending.take(i), ch) is Err,
    ensures
        expand(pending, ch) == expand(pending.take(i), ch),
    decreases pending.len(),
{
    if i == pending.len() {
        assert(pending.take(i) =~= pending);
    } else {
        assert(pending.drop_last().take(i) =~= pending.take(i));
        lemma_expand_prefix_error(pending.drop_last(), ch, i);
    }
}

impl core::str::FromStr for Tiles {
    type Err = ParseError;

    fn from_str(s: &str) -> (r: Result<Tiles, ParseError>)
        ensures
            match r {
                Ok(t) => spec_parse_tiles(s@) == Ok::<Seq<Tile>, ParseError>(t@),
                Err(e) => spec_parse_tiles(s@) == Err::<Seq<Tile>, ParseError>(e),
            },
    {
        Tiles::parse(s)
    }
}

impl From<ParseTileError> for ParseError {
    fn from(err: ParseTileError) -> (r: ParseError) {
        ParseError::ParseTileError(err)
    }
}

impl vstd::std_specs::convert::FromSpecImpl<ParseTileError> for ParseError {
    open spec fn obeys_from_spec() -> bool {
        true
    }

    open spec fn from_spec(err: ParseTileError) -> ParseError {
        ParseError::ParseTileError(err)
    }
}

impl Clone for Tiles {
    fn clone(&self) -> (r: Tiles)
        ensures
            r@ == self@,
    {
        proof {
            use_type_invariant(self);
        }
        let v = self.0.clone();
        proof {
            assert(v@ =~= self.0@);
        }
        Tiles(v)
    }
}

impl PartialEq for Tiles {
    fn eq(&self, other: &Tiles) -> (r: bool) {
        if self.0.len() != other.0.len() {
            return false;
        }
        let mut i: usize = 0;
        while i < self.0.len()
            invariant
                self.0@.len() == other.0@.len(),
                i <= self.0@.len(),
                forall|j: int| 0 <= j < i ==> self.0@[j].key() == other.0@[j].key(),
            decreases self.0@.len() - i,
        {
            if self.0[i].index() != other.0[i].index() {
                return false;
            }
            i += 1;
        }
        true
    }
}

impl vstd::std_specs::cmp::PartialEqSpecImpl for Tiles {
    open spec fn obeys_eq_spec() -> bool {
        true
    }

    open spec fn eq_spec(&self, other: &Tiles) -> bool {
        same_tiles(self@, other@)
    }
}

impl Eq for Tiles {

}

impl core::ops::Deref for Tiles {
    type Target = Vec<Tile>;

    fn deref(&self) -> (r: &Vec<Tile>)
        ensures
            r@ == self@,
    {
        &self.0
    }
}

} // verus!
