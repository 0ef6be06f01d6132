//! The table state: all the groups of a hand, checked for legality.

use crate::context::{Context, ContextView, Lizhi};
use crate::tile::{Tile, TileKind};
use crate::tiles::{
    all_valid, count_key, is_gangzi, is_kezi, is_shunzi, is_sorted, tiles_text, Tiles,
};
use crate::tileset::{ParseError as ParseTilesetError, Tag, Tileset, TilesetView};
use vstd::prelude::*;

verus! {

/// Why a set of groups is no legal table state.
#[derive(Debug, Clone, Copy)]
pub enum TilesetsError {
    /// No hand was given.
    HandNotFound,
    /// The hand was given more than once.
    HandSpecifiedMoreThanOnce,
    /// No winning tile was given.
    LastTileNotFound,
    /// The winning tile was given more than once.
    LastTileSpecifiedMoreThanOnce,
    /// The bonus tiles were given more than once.
    DorasSpecifiedMoreThanOnce,
    /// A ready hand was declared and a tile was claimed.
    BothLizhiFulou,
    /// Too many red tiles of one suit.
    InvalidNumRed(TileKind, u32),
    /// More than four of one tile.
    InvalidNumSameTiles(Tile),
    /// Not fourteen tiles, a quad counted as three.
    InvalidNumTiles(u32),
}

/// The table state: what a hand is made of.
#[derive(Debug)]
pub struct Tilesets {
    /// Winds, declarations and the like.
    pub context: Context,
    /// Whether the winning tile was drawn by the player.
    pub is_zimo: bool,
    /// The winning tile.
    pub last: Tile,
    /// The concealed hand, without the winning tile.
    pub hand: Tiles,
    /// The claimed triplets.
    pub pengs: Vec<Tiles>,
    /// The claimed runs.
    pub chis: Vec<Tiles>,
    /// The open quads.
    pub minggangs: Vec<Tiles>,
    /// The concealed quads.
    pub angangs: Vec<Tiles>,
    /// The bonus tiles themselves, not the tiles that indicate them.
    pub doras: Tiles,
}

/// What a table state holds, as plain values.
pub struct TilesetsView {
    pub context: ContextView,
    pub is_zimo: bool,
    pub last: Tile,
    pub hand: Seq<Tile>,
    pub pengs: Seq<Seq<Tile>>,
    pub chis: Seq<Seq<Tile>>,
    pub minggangs: Seq<Seq<Tile>>,
    pub angangs: Seq<Seq<Tile>>,
    pub doras: Seq<Tile>,
}

/// A table state shown in English.
#[derive(Debug, Clone, Copy)]
pub struct TilesetsDisplayEn<'a>(pub &'a Tilesets);

/// An error raised when a table state is read from text.
#[derive(Debug)]
pub enum ParseError {
    /// A group could not be read.
    ParseTilesetError(ParseTilesetError),
    /// The groups are no legal table state.
    TilesetsError(TilesetsError),
}

/// The groups of `s` as sequences of tiles.
pub open spec fn views(s: Seq<Tiles>) -> Seq<Seq<Tile>> {
    s.map_values(|t: Tiles| t@)
}

/// The groups of a table state while they are being told apart.
pub struct Sorting {
    pub last: Option<(bool, Tile)>,
    pub hand: Option<Seq<Tile>>,
    pub pengs: Seq<Seq<Tile>>,
    pub chis: Seq<Seq<Tile>>,
    pub minggangs: Seq<Seq<Tile>>,
    pub angangs: Seq<Seq<Tile>>,
    pub doras: Option<Seq<Tile>>,
}

impl Sorting {
    /// Nothing told apart yet.
    pub open spec fn empty() -> Sorting {
        Sorting {
            last: None,
            hand: None,
            pengs: Seq::empty(),
            chis: Seq::empty(),
            minggangs: Seq::empty(),
            angangs: Seq::empty(),
            doras: None,
        }
    }

    /// Takes one group in: the winning tile, the hand and the bonus tiles
    /// may each come once; the others are collected in order.
    pub open spec fn take(self, t: TilesetView) -> Result<Sorting, TilesetsError> {
        match t.tag {
            Tag::Zimo | Tag::Ronghe => if self.last is Some {
                Err(TilesetsError::LastTileSpecifiedMoreThanOnce)
            } else {
                Ok(Sorting { last: Some((t.tag == Tag::Zimo, t.tiles[0])), ..self })
            },
            Tag::Hand => if self.hand is Some {
                Err(TilesetsError::HandSpecifiedMoreThanOnce)
            } else {
                Ok(Sorting { hand: Some(t.tiles), ..self })
            },
            Tag::Peng => Ok(Sorting { pengs: self.pengs.push(t.tiles), ..self }),
            Tag::Chi => Ok(Sorting { chis: self.chis.push(t.tiles), ..self }),
            Tag::Minggang => Ok(Sorting { minggangs: self.minggangs.push(t.tiles), ..self }),
            Tag::Angang => Ok(Sorting { angangs: self.angangs.push(t.tiles), ..self }),
            Tag::Dora => if self.doras is Some {
                Err(TilesetsError::DorasSpecifiedMoreThanOnce)
            } else {
                Ok(Sorting { doras: Some(t.tiles), ..self })
            },
        }
    }

    /// Takes the groups in from left to right; the first error ends it.
    pub open spec fn take_all(s: Seq<TilesetView>) -> Result<Sorting, TilesetsError>
        decreases s.len(),
    {
        if s.len() == 0 {
            Ok(Sorting::empty())
        } else {
            match Sorting::take_all(s.drop_last()) {
                Err(e) => Err(e),
                Ok(st) => st.take(s.last()),
            }
        }
    }

    /// Whether every group collected so far fits its place.
    pub open spec fn fits(self) -> bool {
        &&& self.last matches Some((_, t)) ==> t.valid()
        &&& self.hand matches Some(h) ==> is_sorted(h) && all_valid(h)
        &&& self.doras matches Some(d) ==> is_sorted(d) && all_valid(d)
        &&& forall|i: int| 0 <= i < self.pengs.len() ==> is_kezi(#[trigger] self.pengs[i])
        &&& forall|i: int| 0 <= i < self.chis.len() ==> is_shunzi(#[trigger] self.chis[i])
        &&& forall|i: int|
            0 <= i < self.minggangs.len() ==> is_gangzi(#[trigger] self.minggangs[i])
        &&& forall|i: int| 0 <= i < self.angangs.len() ==> is_gangzi(#[trigger] self.angangs[i])
        &&& forall|i: int| 0 <= i < self.pengs.len() ==> all_valid(#[trigger] self.pengs[i])
        &&& forall|i: int| 0 <= i < self.chis.len() ==> all_valid(#[trigger] self.chis[i])
        &&& forall|i: int|
            0 <= i < self.minggangs.len() ==> all_valid(#[trigger] self.minggangs[i])
        &&& forall|i: int| 0 <= i < self.angangs.len() ==> all_valid(#[trigger] self.angangs[i])
    }
}

/// An error on some of the groups, taken from the left, is the error on all of them.
pub proof fn lemma_take_all_prefix_error(s: Seq<TilesetView>, i: int)
    requires
        0 <= i <= s.len(),
        Sorting::take_all(s.take(i)) is Err,
    ensures
        Sorting::take_all(s) == Sorting::take_all(s.take(i)),
    decreases s.len(),
{
    if i == s.len() {
        assert(s.take(i) =~= s);
    } else {
        assert(s.drop_last().take(i) =~= s.take(i));
        lemma_take_all_prefix_error(s.drop_last(), i);
    }
}

/// The text of groups, each after the word `prefix`.
pub open spec fn groups_text(prefix: Seq<char>, groups: Seq<Seq<Tile>>) -> Seq<char>
    decreases groups.len(),
{
    if groups.len() == 0 {
        Seq::empty()
    } else {
        groups_text(prefix, groups.drop_last()) + prefix + tiles_text(groups.last())
    }
}

/// The first tile of `s` of which `s` holds more than four, if there is one.
pub open spec fn overfull_from(s: Seq<Tile>, i: int) -> Option<Tile>
    decreases s.len() - i,
{
    if i < 0 || i >= s.len() {
        None
    } else if count_key(s, s[i].key()) > 4 {
        Some(s[i])
    } else {
        overfull_from(s, i + 1)
    }
}

impl TilesetsView {
    /// Whether a tile was claimed: a triplet, a run or an open quad.
    pub open spec fn did_fulou(self) -> bool {
        self.pengs.len() > 0 || self.chis.len() > 0 || self.minggangs.len() > 0
    }

    /// Whether the hand is concealed: no tile was claimed.
    pub open spec fn is_menqian(self) -> bool {
        !self.did_fulou()
    }

    /// Every tile of the hand but the bonus tiles: the winning tile, the
    /// concealed hand, then the groups.
    pub open spec fn tiles_without_doras(self) -> Seq<Tile> {
        seq![self.last] + self.hand + self.pengs.flatten() + self.chis.flatten()
            + self.minggangs.flatten() + self.angangs.flatten()
    }

    /// Every tile on the table: those of the hand, and the indicators of the bonus tiles.
    pub open spec fn tiles_all(self) -> Seq<Tile> {
        self.tiles_without_doras() + self.doras.map_values(|t: Tile| t.spec_wrapping_prev())
    }

    /// The number of tiles, a quad counted as three.
    pub open spec fn num_tiles(self) -> int {
        (1 + self.hand.len() + 3 * self.pengs.len() + 3 * self.chis.len() + 3
            * self.minggangs.len() + 3 * self.angangs.len()) as int
    }

    /// Whether every group fits its place: triplets, runs and quads are
    /// what they are called, the hand is sorted, every tile is valid.
    pub open spec fn groups_fit(self) -> bool {
        &&& self.last.valid()
        &&& is_sorted(self.hand)
        &&& all_valid(self.hand)
        &&& is_sorted(self.doras)
        &&& all_valid(self.doras)
        &&& forall|i: int| 0 <= i < self.pengs.len() ==> is_kezi(#[trigger] self.pengs[i])
        &&& forall|i: int| 0 <= i < self.chis.len() ==> is_shunzi(#[trigger] self.chis[i])
        &&& forall|i: int|
            0 <= i < self.minggangs.len() ==> is_gangzi(#[trigger] self.minggangs[i])
        &&& forall|i: int| 0 <= i < self.angangs.len() ==> is_gangzi(#[trigger] self.angangs[i])
        &&& forall|i: int| 0 <= i < self.pengs.len() ==> all_valid(#[trigger] self.pengs[i])
        &&& forall|i: int| 0 <= i < self.chis.len() ==> all_valid(#[trigger] self.chis[i])
        &&& forall|i: int|
            0 <= i < self.minggangs.len() ==> all_valid(#[trigger] self.minggangs[i])
        &&& forall|i: int| 0 <= i < self.angangs.len() ==> all_valid(#[trigger] self.angangs[i])
    }

    /// The error of a state whose groups are told apart, if it breaks a
    /// rule: a ready hand with a claimed tile, more than four of a tile,
    /// or a number of tiles other than fourteen.
    pub open spec fn violation(self) -> Option<TilesetsError> {
        if self.context.lizhi != Lizhi::Undeclared && self.did_fulou() {
            Some(TilesetsError::BothLizhiFulou)
        } else if overfull_from(self.tiles_all(), 0) is Some {
            Some(TilesetsError::InvalidNumSameTiles(overfull_from(self.tiles_all(), 0)->0))
        } else if self.num_tiles() != 14 {
            Some(TilesetsError::InvalidNumTiles((self.num_tiles() % 0x1_0000_0000) as u32))
        } else {
            None
        }
    }

    /// Whether the state is legal: its groups fit and it breaks no rule.
    pub open spec fn wf(self) -> bool {
        self.groups_fit() && self.violation() is None
    }

    /// The state that the groups `s` make in the context `context`, before the rules are checked.
    pub open spec fn dispatch(context: ContextView, s: Seq<TilesetView>) -> Result<
        TilesetsView,
        TilesetsError,
    > {
        match Sorting::take_all(s) {
            Err(e) => Err(e),
            Ok(st) => match st.last {
                None => Err(TilesetsError::LastTileNotFound),
                Some((is_zimo, last)) => match st.hand {
                    None => Err(TilesetsError::HandNotFound),
                    Some(hand) => Ok(
                        TilesetsView {
                            context,
                            is_zimo,
                            last,
                            hand,
                            pengs: st.pengs,
                            chis: st.chis,
                            minggangs: st.minggangs,
                            angangs: st.angangs,
                            doras: match st.doras {
                                Some(d) => d,
                                None => Seq::empty(),
                            },
                        },
                    ),
                },
            },
        }
    }

    /// The legal state that the groups `s` make in the context `context`, or why there is none.
    pub open spec fn build(context: ContextView, s: Seq<TilesetView>) -> Result<
        TilesetsView,
        TilesetsError,
    > {
        match TilesetsView::dispatch(context, s) {
            Err(e) => Err(e),
            Ok(t) => match t.violation() {
                Some(e) => Err(e),
                None => Ok(t),
            },
        }
    }

    /// The state as text: hand, groups, winning tile. The bonus tiles are not shown.
    pub open spec fn text(self) -> Seq<char> {
        tiles_text(self.hand) + groups_text(" ポン"@, self.pengs) + groups_text(
            " チー"@,
            self.chis,
        ) + groups_text(" 明槓"@, self.minggangs) + groups_text(" 暗槓"@, self.angangs) + (if self.is_zimo {
            " ツモ"@
        } else {
            " ロン"@
        }) + self.last.text()
    }

    /// The state as English text, the bonus tiles first.
    pub open spec fn text_en(self) -> Seq<char> {
        (if self.doras.len() > 0 {
            "Dora "@ + tiles_text(self.doras) + " "@
        } else {
            Seq::empty()
        }) + tiles_text(self.hand) + groups_text(" Pon "@, self.pengs) + groups_text(
            " Chii "@,
            self.chis,
        ) + groups_text(" Kong "@, self.minggangs) + groups_text(
            " Concealed Kong "@,
            self.angangs,
        ) + (if self.is_zimo {
            " Tsumo "@
        } else {
            " Ron "@
        }) + self.last.text()
    }
}

impl View for Tilesets {
    type V = TilesetsView;

    open spec fn view(&self) -> TilesetsView {
        TilesetsView {
            context: self.context@,
            is_zimo: self.is_zimo,
            last: self.last,
            hand: self.hand@,
            pengs: views(self.pengs@),
            chis: views(self.chis@),
            minggangs: views(self.minggangs@),
            angangs: views(self.angangs@),
            doras: self.doras@,
        }
    }
}

/// Appends the tiles of every group to `out`.
pub fn extend_flat(out: &mut Vec<Tile>, groups: &Vec<Tiles>)
    ensures
        final(out)@ == old(out)@ + views(groups@).flatten(),
{
    let mut i: usize = 0;
    while i < groups.len()
        invariant
            i <= groups@.len(),
            out@ == old(out)@ + views(groups@.take(i as int)).flatten(),
        decreases groups@.len() - i,
    {
        let g = groups[i].inner();
        let mut j: usize = 0;
        let ghost before = out@;
        while j < g.len()
            invariant
                j <= g@.len(),
                out@ == before + g@.take(j as int),
            decreases g@.len() - j,
        {
            out.push(g[j]);
            j += 1;
            proof {
                assert(out@ =~= before + g@.take(j as int));
            }
        }
        i += 1;
        proof {
            assert(g@.take(g@.len() as int) =~= g@);
            let prev = views(groups@.take(i - 1));
            assert(views(groups@.take(i as int)) =~= prev.push(g@));
            prev.lemma_flatten_push(g@);
            assert(out@ =~= old(out)@ + views(groups@.take(i as int)).flatten());
        }
    }
    proof {
        assert(groups@.take(groups@.len() as int) =~= groups@);
    }
}

/// How often the tile with key `k` occurs in `v`.
pub fn count_in(v: &Vec<Tile>, k: u16) -> (r: usize)
    ensures
        r == count_key(v@, k as int),
{
    let mut n: usize = 0;
    let mut i: usize = 0;
    while i < v.len()
        invariant
            i <= v@.len(),
            n <= i,
            n == count_key(v@.take(i as int), k as int),
        decreases v@.len() - i,
    {
        proof {
            assert(v@.take(i + 1).drop_last() =~= v@.take(i as int));
        }
        if v[i].index() == k {
            n += 1;
        }
        i += 1;
    }
    proof {
        assert(v@.take(v@.len() as int) =~= v@);
    }
    n
}

/// Clones a list of groups.
pub fn clone_groups(groups: &Vec<Tiles>) -> (r: Vec<Tiles>)
    ensures
        views(r@) == views(groups@),
{
    let mut out: Vec<Tiles> = Vec::new();
    let mut i: usize = 0;
    while i < groups.len()
        invariant
            i <= groups@.len(),
            views(out@) == views(groups@.take(i as int)),
        decreases groups@.len() - i,
    {
        let ghost prev = out@;
        let g = groups[i].clone();
        out.push(g);
        i += 1;
        proof {
            assert(views(out@) =~= views(prev).push(g@));
            assert(views(groups@.take(i as int)) =~= views(groups@.take(i - 1)).push(
                groups@[i - 1]@,
            ));
        }
    }
    proof {
        assert(groups@.take(groups@.len() as int) =~= groups@);
    }
    out
}

impl Tilesets {
    /// Builds a table state from its groups and checks its rules: a
    /// ready hand claims no tile, no tile occurs more than four times,
    /// and there are fourteen tiles, a quad counted as three.
    pub fn new(context: Context, tilesets: Vec<Tileset>) -> (r: Result<Tilesets, TilesetsError>)
        ensures
            match r {
                Ok(t) => TilesetsView::build(context@, tilesets.deep_view()) == Ok::<
                    TilesetsView,
                    TilesetsError,
                >(t@) && t@.wf(),
                Err(e) => TilesetsView::build(context@, tilesets.deep_view()) == Err::<
                    TilesetsView,
                    TilesetsError,
                >(e),
            },
    {
        let cand = match Tilesets::dispatch(context, tilesets) {
            Ok(c) => c,
            Err(e) => {
                return Err(e);
            },
        };
        match cand.check_lizhi_fulou() {
            Ok(()) => {},
            Err(e) => {
                return Err(e);
            },
        }
        match cand.check_num_same_tiles() {
            Ok(()) => {},
            Err(e) => {
                return Err(e);
            },
        }
        match cand.check_num_tiles() {
            Ok(()) => {},
            Err(e) => {
                return Err(e);
            },
        }
        Ok(cand)
    }

    /// Whether a tile was claimed: a triplet, a run or an open quad.
    pub fn did_fulou(&self) -> (r: bool)
        ensures
            r == self@.did_fulou(),
    {
        self.pengs.len() > 0 || self.chis.len() > 0 || self.minggangs.len() > 0
    }

    /// Whether the hand is concealed.
    pub fn is_menqian(&self) -> (r: bool)
        ensures
            r == self@.is_menqian(),
    {
        !self.did_fulou()
    }

    /// Tells the groups apart by their tags.
    fn dispatch(context: Context, tilesets: Vec<Tileset>) -> (r: Result<Tilesets, TilesetsError>)
        ensures
            match r {
                Ok(t) => TilesetsView::dispatch(context@, tilesets.deep_view()) == Ok::<
                    TilesetsView,
                    TilesetsError,
                >(t@) && t@.groups_fit(),
                Err(e) => TilesetsView::dispatch(context@, tilesets.deep_view()) == Err::<
                    TilesetsView,
                    TilesetsError,
                >(e),
            },
    {
        let mut last: Option<(bool, Tile)> = None;
        let mut hand: Option<Tiles> = None;
        let mut pengs: Vec<Tiles> = Vec::new();
        let mut chis: Vec<Tiles> = Vec::new();
        let mut minggangs: Vec<Tiles> = Vec::new();
        let mut angangs: Vec<Tiles> = Vec::new();
        let mut doras: Option<Tiles> = None;
        let ghost all = tilesets.deep_view();
        let mut i: usize = 0;
        proof {
            assert(views(pengs@) =~= Seq::empty());
            assert(views(chis@) =~= Seq::empty());
            assert(views(minggangs@) =~= Seq::empty());
            assert(views(angangs@) =~= Seq::empty());
            assert(all.take(0) =~= Seq::empty());
        }
        while i < tilesets.len()
            invariant
                i <= tilesets@.len(),
                all == tilesets.deep_view(),
                all.len() == tilesets@.len(),
                Sorting::take_all(all.take(i as int)) == Ok::<Sorting, TilesetsError>(
                    Sorting {
                        last,
                        hand: match hand {
                            Some(h) => Some(h@),
                            None => None,
                        },
                        pengs: views(pengs@),
                        chis: views(chis@),
                        minggangs: views(minggangs@),
                        angangs: views(angangs@),
                        doras: match doras {
                            Some(d) => Some(d@),
                            None => None,
                        },
                    },
                ),
                Sorting::take_all(all.take(i as int))->Ok_0.fits(),
            decreases tilesets@.len() - i,
        {
            let tileset = &tilesets[i];
            let tag = tileset.tag();
            let tiles = tileset.tiles().clone();
            proof {
                use_type_invariant(&tiles);
                assert(all.take(i + 1).drop_last() =~= all.take(i as int));
                assert(all.take(i + 1).last() == tileset@);
                assert(tileset@.tiles == tiles@);
            }
            let ghost before = Sorting::take_all(all.take(i as int))->Ok_0;
            match tag {
                Tag::Zimo | Tag::Ronghe => {
                    if last.is_some() {
                        proof {
                            lemma_take_all_prefix_error(all, i + 1);
                        }
                        return Err(TilesetsError::LastTileSpecifiedMoreThanOnce);
                    }
                    let is_zimo = match tag {
                        Tag::Zimo => true,
                        _ => false,
                    };
                    last = Some((is_zimo, tiles.first()));
                },
                Tag::Hand => {
                    if hand.is_some() {
                        proof {
                            lemma_take_all_prefix_error(all, i + 1);
                        }
                        return Err(TilesetsError::HandSpecifiedMoreThanOnce);
                    }
                    hand = Some(tiles);
                },
                Tag::Peng => {
                    pengs.push(tiles);
                    proof {
                        assert(views(pengs@) =~= before.pengs.push(tileset@.tiles));
                    }
                },
                Tag::Chi => {
                    chis.push(tiles);
                    proof {
                        assert(views(chis@) =~= before.chis.push(tileset@.tiles));
                    }
                },
                Tag::Minggang => {
                    minggangs.push(tiles);
                    proof {
                        assert(views(minggangs@) =~= before.minggangs.push(tileset@.tiles));
                    }
                },
                Tag::Angang => {
                    angangs.push(tiles);
                    proof {
                        assert(views(angangs@) =~= before.angangs.push(tileset@.tiles));
                    }
                },
                Tag::Dora => {
                    if doras.is_some() {
                        proof {
                            lemma_take_all_prefix_error(all, i + 1);
                        }
                        return Err(TilesetsError::DorasSpecifiedMoreThanOnce);
                    }
                    doras = Some(tiles);
                },
            }
            i += 1;
        }
        proof {
            assert(all.take(tilesets@.len() as int) =~= all);
        }
        let (is_zimo, last) = match last {
            Some(l) => l,
            None => {
                return Err(TilesetsError::LastTileNotFound);
            },
        };
        let hand = match hand {
            Some(h) => h,
            None => {
                return Err(TilesetsError::HandNotFound);
            },
        };
        let doras = match doras {
            Some(d) => d,
            None => Tiles::new(Vec::new()),
        };
        proof {
            assert(doras@.len() == 0 || Sorting::take_all(all)->Ok_0.doras == Some(doras@));
        }
        Ok(Tilesets { context, is_zimo, last, hand, pengs, chis, minggangs, angangs, doras })
    }

    /// A ready hand must not come with a claimed tile.
    fn check_lizhi_fulou(&self) -> (r: Result<(), TilesetsError>)
        ensures
            match r {
                Ok(_) => !(self@.context.lizhi != Lizhi::Undeclared && self@.did_fulou()),
                Err(e) => self@.context.lizhi != Lizhi::Undeclared && self@.did_fulou() && e
                    is BothLizhiFulou,
            },
    {
        match self.context.lizhi {
            Lizhi::Undeclared => {
                return Ok(());
            },
            _ => {},
        }
        if self.did_fulou() {
            return Err(TilesetsError::BothLizhiFulou);
        }
        Ok(())
    }

    /// Every tile of the hand but the bonus tiles: the winning tile, the
    /// concealed hand, then the groups.
    pub fn tiles_without_doras(&self) -> (r: Vec<Tile>)
        ensures
            r@ == self@.tiles_without_doras(),
    {
        let mut out: Vec<Tile> = Vec::new();
        out.push(self.last);
        let hand = self.hand.inner();
        let mut i: usize = 0;
        while i < hand.len()
            invariant
                i <= hand@.len(),
                out@ == seq![self.last] + hand@.take(i as int),
            decreases hand@.len() - i,
        {
            out.push(hand[i]);
            i += 1;
            proof {
                assert(out@ =~= seq![self.last] + hand@.take(i as int));
            }
        }
        proof {
            assert(hand@.take(hand@.len() as int) =~= hand@);
        }
        extend_flat(&mut out, &self.pengs);
        extend_flat(&mut out, &self.chis);
        extend_flat(&mut out, &self.minggangs);
        extend_flat(&mut out, &self.angangs);
        out
    }

    /// Every tile on the table: those of the hand, and the indicators of the bonus tiles.
    fn tiles_all(&self) -> (r: Vec<Tile>)
        ensures
            r@ == self@.tiles_all(),
    {
        let mut out = self.tiles_without_doras();
        let doras = self.doras.inner();
        let ghost base = out@;
        let mut i: usize = 0;
        while i < doras.len()
            invariant
                i <= doras@.len(),
                out@ == base + doras@.take(i as int).map_values(
                    |t: Tile| t.spec_wrapping_prev(),
                ),
            decreases doras@.len() - i,
        {
            out.push(doras[i].wrapping_prev());
            i += 1;
            proof {
                assert(out@ =~= base + doras@.take(i as int).map_values(
                    |t: Tile| t.spec_wrapping_prev(),
                ));
            }
        }
        proof {
            assert(doras@.take(doras@.len() as int) =~= doras@);
        }
        out
    }

    /// No tile may occur more than four times.
    fn check_num_same_tiles(&self) -> (r: Result<(), TilesetsError>)
        ensures
            match r {
                Ok(_) => overfull_from(self@.tiles_all(), 0) is None,
                Err(TilesetsError::InvalidNumSameTiles(t)) => overfull_from(self@.tiles_all(), 0)
                    == Some(t),
                Err(_) => false,
            },
    {
        let all = self.tiles_all();
        let mut i: usize = 0;
        while i < all.len()
            invariant
                i <= all@.len(),
                all@ == self@.tiles_all(),
                overfull_from(all@, 0) == overfull_from(all@, i as int),
            decreases all@.len() - i,
        {
            let t = all[i];
            let k: u16 = t.index();
            let n = count_in(&all, k);
            proof {
                assert(n == count_key(all@, all@[i as int].key()));
                assert(overfull_from(all@, i as int) == if n > 4 {
                    Some(t)
                } else {
                    overfull_from(all@, i + 1)
                });
            }
            if n > 4 {
                return Err(TilesetsError::InvalidNumSameTiles(t));
            }
            i += 1;
        }
        Ok(())
    }

    /// There must be fourteen tiles, a quad counted as three.
    fn check_num_tiles(&self) -> (r: Result<(), TilesetsError>)
        ensures
            match r {
                Ok(_) => self@.num_tiles() == 14,
                Err(TilesetsError::InvalidNumTiles(n)) => self@.num_tiles() != 14 && n == (
                self@.num_tiles() % 0x1_0000_0000) as u32,
                Err(_) => false,
            },
    {
        let hand: u128 = self.hand.len() as u128;
        let pengs: u128 = self.pengs.len() as u128;
        let chis: u128 = self.chis.len() as u128;
        let minggangs: u128 = self.minggangs.len() as u128;
        let angangs: u128 = self.angangs.len() as u128;
        let tiles: u128 = 1 + hand + pengs * 3 + chis * 3 + minggangs * 3 + angangs * 3;
        if tiles != 14 {
            return Err(TilesetsError::InvalidNumTiles((tiles % 0x1_0000_0000) as u32));
        }
        Ok(())
    }

    /// The state, to be shown in English.
    pub fn display_en(&self) -> (r: TilesetsDisplayEn<'_>)
        ensures
            r.0 == self,
    {
        TilesetsDisplayEn(self)
    }

    /// The state as text: hand, groups, winning tile. The bonus tiles are not shown.
    pub fn to_string(&self) -> (r: String)
        ensures
            r@ == self@.text(),
    {
        let mut out = self.hand.to_string();
        push_groups(&mut out, " ポン", &self.pengs);
        push_groups(&mut out, " チー", &self.chis);
        push_groups(&mut out, " 明槓", &self.minggangs);
        push_groups(&mut out, " 暗槓", &self.angangs);
        if self.is_zimo {
            out.append(" ツモ");
        } else {
            out.append(" ロン");
        }
        let l = self.last.to_string();
        out.append(l.as_str());
        proof {
            assert(out@ =~= self@.text());
        }
        out
    }
}

/// Appends the text of the groups, each after the word `prefix`.
pub fn push_groups(out: &mut String, prefix: &str, groups: &Vec<Tiles>)
    ensures
        final(out)@ == old(out)@ + groups_text(prefix@, views(groups@)),
{
    let mut i: usize = 0;
    while i < groups.len()
        invariant
            i <= groups@.len(),
            out@ == old(out)@ + groups_text(prefix@, views(groups@.take(i as int))),
        decreases groups@.len() - i,
    {
        out.append(prefix);
        let t = groups[i].to_string();
        out.append(t.as_str());
        i += 1;
        proof {
            let cur = views(groups@.take(i as int));
            assert(cur.drop_last() =~= views(groups@.take(i - 1)));
            assert(cur.last() == groups@[i - 1]@);
            assert(out@ =~= old(out)@ + groups_text(prefix@, cur));
        }
    }
    proof {
        assert(groups@.take(groups@.len() as int) =~= groups@);
    }
}

impl<'a> TilesetsDisplayEn<'a> {
    /// The state as English text.
    pub fn to_string(&self) -> (r: String)
        ensures
            r@ == self.0@.text_en(),
    {
        let tilesets = self.0;
        let mut out = String::new();
        if !tilesets.doras.is_empty() {
            out.append("Dora ");
            let d = tilesets.doras.to_string();
            out.append(d.as_str());
            out.append(" ");
        }
        let h = tilesets.hand.to_string();
        out.append(h.as_str());
        push_groups(&mut out, " Pon ", &tilesets.pengs);
        push_groups(&mut out, " Chii ", &tilesets.chis);
        push_groups(&mut out, " Kong ", &tilesets.minggangs);
        push_groups(&mut out, " Concealed Kong ", &tilesets.angangs);
        if tilesets.is_zimo {
            out.append(" Tsumo ");
        } else {
            out.append(" Ron ");
        }
        let l = tilesets.last.to_string();
        out.append(l.as_str());
        proof {
            assert(out@ =~= tilesets@.text_en());
        }
        out
    }
}

impl Clone for Tilesets {
    fn clone(&self) -> (r: Tilesets)
        ensures
            r@ == self@,
    {
        Tilesets {
            context: self.context.clone(),
            is_zimo: self.is_zimo,
            last: self.last,
            hand: self.hand.clone(),
            pengs: clone_groups(&self.pengs),
            chis: clone_groups(&self.chis),
            minggangs: clone_groups(&self.minggangs),
            angangs: clone_groups(&self.angangs),
            doras: self.doras.clone(),
        }
    }
}

impl From<ParseTilesetError> for ParseError {
    fn from(x: ParseTilesetError) -> (r: ParseError) {
        ParseError::ParseTilesetError(x)
    }
}

impl vstd::std_specs::convert::FromSpecImpl<ParseTilesetError> for ParseError {
    open spec fn obeys_from_spec() -> bool {
        true
    }

    open spec fn from_spec(x: ParseTilesetError) -> ParseError {
        ParseError::ParseTilesetError(x)
    }
}

impl From<TilesetsError> for ParseError {
    fn from(x: TilesetsError) -> (r: ParseError) {
        ParseError::TilesetsError(x)
    }
}

impl vstd::std_specs::convert::FromSpecImpl<TilesetsError> for ParseError {
    open spec fn obeys_from_spec() -> bool {
        true
    }

    open spec fn from_spec(x: TilesetsError) -> ParseError {
        ParseError::TilesetsError(x)
    }
}

} // verus!
