//! A group of tiles with the role it plays in the hand.

use crate::tiles::{
    is_gangzi, is_kezi, is_shunzi, spec_parse_tiles, tiles_text, Error as TilesError, ErrorView,
    ParseError as ParseTilesError, Tiles,
};
use crate::tile::Tile;
use crate::utils::{chars_are, chars_of};
use vstd::prelude::*;

verus! {

/// An error raised when a tagged group is built.
#[derive(Debug)]
pub enum Error {
    /// The tiles do not fit the tag.
    TilesError(TilesError),
}

/// The role of a group of tiles.
#[derive(Debug, Clone, Copy, PartialEq, Eq, Structural)]
pub enum Tag {
    /// The winning tile, drawn by the player.
    Zimo,
    /// The winning tile, claimed from a discard.
    Ronghe,
    /// The concealed hand.
    Hand,
    /// A claimed triplet.
    Peng,
    /// A claimed run.
    Chi,
    /// An open quad.
    Minggang,
    /// A concealed quad.
    Angang,
    /// The bonus tiles.
    Dora,
}

/// A group of tiles with its tag; the tiles always fit the tag.
#[derive(Debug)]
pub struct Tileset {
    pub(crate) tag: Tag,
    pub(crate) tiles: Tiles,
}

/// What a tagged group holds, as plain values.
pub struct TilesetView {
    pub tag: Tag,
    pub tiles: Seq<Tile>,
}

/// An error raised when a tagged group is read from text.
#[derive(Debug)]
pub enum ParseError {
    /// The text before the tiles names no tag; it is carried along.
    UnknownAnnotation(String),
    /// The tiles do not fit the tag.
    TilesetError(Error),
    /// The tiles could not be read.
    ParseTilesError(ParseTilesError),
}

/// How reading a tagged group ends, as plain values.
pub enum ParseOutcome {
    Parsed(TilesetView),
    UnknownAnnotation(Seq<char>),
    TilesetError(ErrorView),
    ParseTilesError(ParseTilesError),
}

impl View for Error {
    type V = ErrorView;

    open spec fn view(&self) -> ErrorView {
        match self {
            Error::TilesError(e) => e@,
        }
    }
}

impl View for ParseError {
    type V = ParseOutcome;

    open spec fn view(&self) -> ParseOutcome {
        match self {
            ParseError::UnknownAnnotation(a) => ParseOutcome::UnknownAnnotation(a@),
            ParseError::TilesetError(e) => ParseOutcome::TilesetError(e@),
            ParseError::ParseTilesError(e) => ParseOutcome::ParseTilesError(*e),
        }
    }
}

impl Tag {
    /// Whether the tiles `s` fit the tag: one winning tile, a triplet, a
    /// run, a quad; a hand and the bonus tiles are free.
    pub open spec fn admits(self, s: Seq<Tile>) -> bool {
        match self {
            Tag::Zimo | Tag::Ronghe => s.len() == 1,
            Tag::Peng => is_kezi(s),
            Tag::Chi => is_shunzi(s),
            Tag::Minggang | Tag::Angang => is_gangzi(s),
            Tag::Hand | Tag::Dora => true,
        }
    }

    /// The error with which the tag refuses the tiles `s`.
    pub open spec fn refusal(self, s: Seq<Tile>) -> ErrorView {
        match self {
            Tag::Zimo | Tag::Ronghe => ErrorView::InvalidLastTile(s),
            Tag::Chi => if s.len() != 3 {
                ErrorView::InvalidPeng(s)
            } else {
                ErrorView::InvalidChi(s)
            },
            _ => ErrorView::InvalidPeng(s),
        }
    }

    /// The word that stands for the tag in text; none for the hand.
    pub open spec fn text(self) -> Seq<char> {
        match self {
            Tag::Zimo => "ツモ"@,
            Tag::Ronghe => "ロン"@,
            Tag::Hand => ""@,
            Tag::Peng => "ポン"@,
            Tag::Chi => "チー"@,
            Tag::Minggang => "明槓"@,
            Tag::Angang => "暗槓"@,
            Tag::Dora => "ドラ"@,
        }
    }

    /// The tag that a word names.
    pub open spec fn of_text(s: Seq<char>) -> Option<Tag> {
        if s == "ツモ"@ {
            Some(Tag::Zimo)
        } else if s == "ロン"@ {
            Some(Tag::Ronghe)
        } else if s == "ポン"@ {
            Some(Tag::Peng)
        } else if s == "チー"@ {
            Some(Tag::Chi)
        } else if s == "明槓"@ {
            Some(Tag::Minggang)
        } else if s == "暗槓"@ {
            Some(Tag::Angang)
        } else if s == "ドラ"@ {
            Some(Tag::Dora)
        } else if s.len() == 0 {
            Some(Tag::Hand)
        } else {
            None
        }
    }

    /// The word that stands for the tag in text.
    pub fn as_str(self) -> (r: &'static str)
        ensures
            r@ == self.text(),
    {
        match self {
            Tag::Zimo => "ツモ",
            Tag::Ronghe => "ロン",
            Tag::Hand => "",
            Tag::Peng => "ポン",
            Tag::Chi => "チー",
            Tag::Minggang => "明槓",
            Tag::Angang => "暗槓",
            Tag::Dora => "ドラ",
        }
    }

    /// The word that stands for the tag in text.
    pub fn to_string(&self) -> (r: String)
        ensures
            r@ == self.text(),
    {
        String::from_str(self.as_str())
    }

    /// Reads a tag from the word before the tiles.
    pub fn parse_chars(annot: &Vec<char>) -> (r: Option<Tag>)
        ensures
            r == Tag::of_text(annot@),
    {
        if chars_are(annot, "ツモ") {
            Some(Tag::Zimo)
        } else if chars_are(annot, "ロン") {
            Some(Tag::Ronghe)
        } else if chars_are(annot, "ポン") {
            Some(Tag::Peng)
        } else if chars_are(annot, "チー") {
            Some(Tag::Chi)
        } else if chars_are(annot, "明槓") {
            Some(Tag::Minggang)
        } else if chars_are(annot, "暗槓") {
            Some(Tag::Angang)
        } else if chars_are(annot, "ドラ") {
            Some(Tag::Dora)
        } else if annot.len() == 0 {
            Some(Tag::Hand)
        } else {
            None
        }
    }
}

/// Whether a tile can begin with `c`: a rank or the name of an honor.
pub open spec fn is_tile_start(c: char) -> bool {
    49 <= c as u32 <= 57 || c == '東' || c == '南' || c == '西' || c == '北' || c == '白' || c
        == '發' || c == '中'
}

/// The number of characters before the first that can begin a tile.
pub open spec fn annotation_len(s: Seq<char>) -> int
    decreases s.len(),
{
    if s.len() == 0 || is_tile_start(s[0]) {
        0
    } else {
        1 + annotation_len(s.drop_first())
    }
}

/// A place before which no character can begin a tile, and at which the
/// text ends or a tile can begin, is where the annotation ends.
pub proof fn lemma_annotation_len_unique(s: Seq<char>, n: int)
    requires
        0 <= n <= s.len(),
        forall|j: int| 0 <= j < n ==> !is_tile_start(#[trigger] s[j]),
        n < s.len() ==> is_tile_start(s[n]),
    ensures
        annotation_len(s) == n,
    decreases s.len(),
{
    if s.len() == 0 || is_tile_start(s[0]) {
        if n > 0 {
            assert(!is_tile_start(s[0]));
        }
    } else {
        let d = s.drop_first();
        assert(n > 0);
        assert forall|j: int| 0 <= j < n - 1 implies !is_tile_start(#[trigger] d[j]) by {
            assert(d[j] == s[j + 1]);
        }
        lemma_annotation_len_unique(d, n - 1);
    }
}

impl TilesetView {
    /// How reading the text `s` ends: the tag from the annotation, the
    /// tiles from the rest, and the tag must admit the tiles.
    pub open spec fn spec_parse(s: Seq<char>) -> ParseOutcome {
        let n = annotation_len(s);
        match Tag::of_text(s.take(n)) {
            None => ParseOutcome::UnknownAnnotation(s.take(n)),
            Some(tag) => match spec_parse_tiles(s.skip(n)) {
                Err(e) => ParseOutcome::ParseTilesError(e),
                Ok(tiles) => if tag.admits(tiles) {
                    ParseOutcome::Parsed(TilesetView { tag, tiles })
                } else {
                    ParseOutcome::TilesetError(tag.refusal(tiles))
                },
            },
        }
    }

    /// The group as text: the tag's word, then the tiles.
    pub open spec fn text(self) -> Seq<char> {
        self.tag.text() + tiles_text(self.tiles)
    }
}

impl DeepView for Tileset {
    type V = TilesetView;

    open spec fn deep_view(&self) -> TilesetView {
        self@
    }
}

impl View for Tileset {
    type V = TilesetView;

    closed spec fn view(&self) -> TilesetView {
        TilesetView { tag: self.tag, tiles: self.tiles@ }
    }
}

impl Tileset {
    #[verifier::type_invariant]
    closed spec fn well_formed(self) -> bool {
        self.tag.admits(self.tiles@)
    }

    /// Builds a tagged group; the tag must admit the tiles.
    pub fn new(tag: Tag, tiles: Tiles) -> (r: Result<Tileset, Error>)
        ensures
            match r {
                Ok(t) => tag.admits(tiles@) && t@ == (TilesetView { tag, tiles: tiles@ }),
                Err(e) => !tag.admits(tiles@) && e@ == tag.refusal(tiles@),
            },
    {
        let checked = match tag {
            Tag::Zimo | Tag::Ronghe => tiles.check_last_tile(),
            Tag::Peng => tiles.check_peng(),
            Tag::Chi => tiles.check_chi(),
            Tag::Minggang | Tag::Angang => tiles.check_gang(),
            _ => Ok(tiles),
        };
        match checked {
            Ok(tiles) => Ok(Tileset { tag, tiles }),
            Err(e) => Err(Error::TilesError(e)),
        }
    }

    /// The tag.
    pub fn tag(&self) -> (r: Tag)
        ensures
            r == self@.tag,
            r.admits(self@.tiles),
    {
        proof {
            use_type_invariant(self);
        }
        self.tag
    }

    /// The tiles.
    pub fn tiles(&self) -> (r: &Tiles)
        ensures
            r@ == self@.tiles,
            self@.tag.admits(self@.tiles),
    {
        proof {
            use_type_invariant(self);
        }
        &self.tiles
    }

    /// The tag and the tiles.
    pub fn into_parts(self) -> (r: (Tag, Tiles))
        ensures
            r.0 == self@.tag,
            r.1@ == self@.tiles,
            r.0.admits(r.1@),
    {
        proof {
            use_type_invariant(&self);
        }
        (self.tag, self.tiles)
    }

    /// The group as text: the tag's word, then the tiles.
    pub fn to_string(&self) -> (r: String)
        ensures
            r@ == self@.text(),
    {
        let mut out = self.tag.to_string();
        let t = self.tiles.to_string();
        out.append(t.as_str());
        out
    }

    /// Reads a tagged group from its text: an annotation (none for the
    /// hand), then the tiles.
    pub fn parse(s: &str) -> (r: Result<Tileset, ParseError>)
        ensures
            match r {
                Ok(t) => TilesetView::spec_parse(s@) == ParseOutcome::Parsed(t@),
                Err(e) => TilesetView::spec_parse(s@) == e@,
            },
    {
        let chars = chars_of(s);
        let mut n: usize = 0;
        while n < chars.len() && !Tileset::starts_tile(chars[n])
            invariant
                n <= chars@.len(),
                forall|j: int| 0 <= j < n ==> !is_tile_start(#[trigger] chars@[j]),
            decreases chars@.len() - n,
        {
            n += 1;
        }
        proof {
            lemma_annotation_len_unique(chars@, n as int);
        }
        let mut annot: Vec<char> = Vec::new();
        let mut rest: Vec<char> = Vec::new();
        let mut i: usize = 0;
        while i < chars.len()
            invariant
                n <= chars@.len(),
                i <= chars@.len(),
                annot@ == chars@.take(if i < n { i as int } else { n as int }),
                rest@ == chars@.subrange(n as int, if i < n { n as int } else { i as int }),
            decreases chars@.len() - i,
        {
            if i < n {
                annot.push(chars[i]);
            } else {
                rest.push(chars[i]);
            }
            i += 1;
            proof {
                assert(annot@ =~= chars@.take(if i < n { i as int } else { n as int }));
                assert(rest@ =~= chars@.subrange(
                    n as int,
                    if i < n {
                        n as int
                    } else {
                        i as int
                    },
                ));
            }
        }
        proof {
            assert(rest@ =~= chars@.skip(n as int));
        }
        let tag = match Tag::parse_chars(&annot) {
            Some(tag) => tag,
            None => {
                let text = s.substring_char(0, n);
                proof {
                    assert(text@ =~= s@.take(n as int));
                }
                return Err(ParseError::UnknownAnnotation(String::from_str(text)));
            },
        };
        let tiles = match Tiles::parse_chars(&rest) {
            Ok(tiles) => tiles,
            Err(e) => {
                return Err(ParseError::ParseTilesError(e));
            },
        };
        match Tileset::new(tag, tiles) {
            Ok(t) => Ok(t),
            Err(e) => Err(ParseError::TilesetError(e)),
        }
    }

    /// Whether a tile can begin with `c`.
    fn starts_tile(c: char) -> (r: bool)
        ensures
            r == is_tile_start(c),
    {
        let code: u32 = c as u32;
        (49 <= code && code <= 57) || c == '東' || c == '南' || c == '西' || c == '北' || c
            == '白' || c == '發' || c == '中'
    }
}

impl Clone for Tileset {
    fn clone(&self) -> (r: Tileset)
        ensures
            r@ == self@,
    {
        proof {
            use_type_invariant(self);
        }
        Tileset { tag: self.tag, tiles: self.tiles.clone() }
    }
}

impl PartialEq for Tileset {
    fn eq(&self, other: &Tileset) -> (r: bool) {
        self.tag == other.tag && self.tiles == other.tiles
    }
}

impl vstd::std_specs::cmp::PartialEqSpecImpl for Tileset {
    open spec fn obeys_eq_spec() -> bool {
        true
    }

    open spec fn eq_spec(&self, other: &Tileset) -> bool {
        self@.tag == other@.tag && crate::tiles::same_tiles(self@.tiles, other@.tiles)
    }
}

impl Eq for Tileset {

}

impl core::str::FromStr for Tileset {
    type Err = ParseError;

    fn from_str(s: &str) -> (r: Result<Tileset, ParseError>)
        ensures
            match r {
                Ok(t) => TilesetView::spec_parse(s@) == ParseOutcome::Parsed(t@),
                Err(e) => TilesetView::spec_parse(s@) == e@,
            },
    {
        Tileset::parse(s)
    }
}

impl From<TilesError> for Error {
    fn from(err: TilesError) -> (r: Error) {
        Error::TilesError(err)
    }
}

impl vstd::std_specs::convert::FromSpecImpl<TilesError> for Error {
    open spec fn obeys_from_spec() -> bool {
        true
    }

    open spec fn from_spec(err: TilesError) -> Error {
        Error::TilesError(err)
    }
}

impl From<Error> for ParseError {
    fn from(err: Error) -> (r: ParseError) {
        ParseError::TilesetError(err)
    }
}

impl vstd::std_specs::convert::FromSpecImpl<Error> for ParseError {
    open spec fn obeys_from_spec() -> bool {
        true
    }

    open spec fn from_spec(err: Error) -> ParseError {
        ParseError::TilesetError(err)
    }
}

impl From<ParseTilesError> for ParseError {
    fn from(err: ParseTilesError) -> (r: ParseError) {
        ParseError::ParseTilesError(err)
    }
}

impl vstd::std_specs::convert::FromSpecImpl<ParseTilesError> for ParseError {
    open spec fn obeys_from_spec() -> bool {
        true
    }

    open spec fn from_spec(err: ParseTilesError) -> ParseError {
        ParseError::ParseTilesError(err)
    }
}

} // verus!
