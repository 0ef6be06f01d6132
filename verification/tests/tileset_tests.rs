use agari::tile::{Order, Tile};
use agari::tiles::{Error as TilesError, Tiles};
use agari::tileset::{Error, ParseError, Tag, Tileset};

#[test]
fn tileset_parse() {
    assert_eq!(
        "ロン1p".parse::<Tileset>().unwrap(),
        Tileset::new(Tag::Ronghe, "1p".parse().unwrap()).unwrap()
    );

    assert_eq!(
        "暗槓1p1p1p1p".parse::<Tileset>().unwrap(),
        Tileset::new(Tag::Angang, "1p1p1p1p".parse().unwrap()).unwrap()
    );

    match "ポン1p2p3p".parse::<Tileset>() {
        Err(ParseError::TilesetError(Error::TilesError(TilesError::InvalidPeng(_)))) => {}
        _ => panic!("should cause invalid peng error"),
    }
}

#[test]
fn tiles() {
    let s1 = Tile::Suozi(Order::new(1).unwrap());
    let s2 = Tile::Suozi(Order::new(2).unwrap());
    let s3 = Tile::Suozi(Order::new(3).unwrap());
    let tiles = Tiles::new(vec![s1, s2, s3]);

    assert_eq!(tiles.first(), s1);
    assert_eq!(tiles.middle(), s2);
    assert_eq!(tiles.last(), s3);
}

#[test]
fn every_tag_reads_and_shows() {
    let cases = [
        ("ツモ1p", Tag::Zimo),
        ("ロン1p", Tag::Ronghe),
        ("1p2p", Tag::Hand),
        ("ポン東東東", Tag::Peng),
        ("チー1s2s3s", Tag::Chi),
        ("明槓9m9m9m9m", Tag::Minggang),
        ("暗槓9m9m9m9m", Tag::Angang),
        ("ドラ1s中", Tag::Dora),
    ];
    for (text, tag) in cases {
        let set = text.parse::<Tileset>().unwrap();
        assert_eq!(set.tag(), tag);
        assert_eq!(set.to_string(), text);
        assert_eq!(set.clone(), set);
    }
    let (tag, tiles) = "チー3s1s2s".parse::<Tileset>().unwrap().into_parts();
    assert_eq!(tag, Tag::Chi);
    assert_eq!(tiles.to_string(), "1s2s3s");
    assert_eq!("チー3s1s2s".parse::<Tileset>().unwrap().tiles().len(), 3);
}

#[test]
fn tileset_parse_errors() {
    match "カン1p1p1p1p".parse::<Tileset>() {
        Err(ParseError::UnknownAnnotation(a)) => assert_eq!(a, "カン"),
        _ => panic!("an unknown annotation is refused"),
    }
    assert!(matches!("ポン1p1x".parse::<Tileset>(), Err(ParseError::ParseTilesError(_))));
    assert!(matches!(
        "ツモ1p2p".parse::<Tileset>(),
        Err(ParseError::TilesetError(Error::TilesError(TilesError::InvalidLastTile(_))))
    ));
    assert!(matches!(
        "チー1p2p4p".parse::<Tileset>(),
        Err(ParseError::TilesetError(Error::TilesError(TilesError::InvalidChi(_))))
    ));
    assert!(matches!(
        "明槓1p1p1p".parse::<Tileset>(),
        Err(ParseError::TilesetError(Error::TilesError(TilesError::InvalidPeng(_))))
    ));
}
