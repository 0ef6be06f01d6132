use agari::context::{Context, Lizhi};
use agari::tileset::{Tag, Tileset};
use agari::tileset::ParseError as ParseTilesetError;
use agari::tilesets::{ParseError, Tilesets, TilesetsError};

fn sets(text: &str) -> Vec<Tileset> {
    text.split_whitespace().map(|t| t.parse().unwrap()).collect()
}

#[test]
fn invalid_num_same_tiles() {
    assert!(Tilesets::new(
        Context::default(),
        vec![
            Tileset::new(Tag::Hand, "1p1p1p1p2p3p1p2p3p4p5p6p3p".parse().unwrap()).unwrap(),
            Tileset::new(Tag::Zimo, "3p".parse().unwrap()).unwrap(),
        ]
    )
    .is_err());
}

#[test]
fn every_rule_has_its_error() {
    let new = |text: &str| Tilesets::new(Context::default(), sets(text));
    assert!(matches!(new("ツモ1p"), Err(TilesetsError::HandNotFound)));
    assert!(matches!(
        new("1p2p3p 4p5p6p ツモ1p"),
        Err(TilesetsError::HandSpecifiedMoreThanOnce)
    ));
    assert!(matches!(new("1p2p3p"), Err(TilesetsError::LastTileNotFound)));
    assert!(matches!(
        new("1p2p3p ツモ1p ロン2p"),
        Err(TilesetsError::LastTileSpecifiedMoreThanOnce)
    ));
    assert!(matches!(
        new("1p2p3p ツモ1p ドラ1s ドラ2s"),
        Err(TilesetsError::DorasSpecifiedMoreThanOnce)
    ));
    assert!(matches!(new("1p2p3p ツモ1p"), Err(TilesetsError::InvalidNumTiles(4))));
    match new("1p1p1p1p2p3p1p2p3p4p5p6p3p ツモ3p") {
        Err(TilesetsError::InvalidNumSameTiles(t)) => assert_eq!(t.to_string(), "1p"),
        _ => panic!("five of one tile are refused"),
    }
    let ready = Context { lizhi: Lizhi::Lizhi, ..Context::default() };
    assert!(matches!(
        Tilesets::new(ready, sets("1p1p1p2p2p2p3p3p3p5p ツモ5p ポン4p4p4p")),
        Err(TilesetsError::BothLizhiFulou)
    ));
}

#[test]
fn a_bonus_tile_counts_by_its_indicator() {
    // Four 1p in the hand and the bonus tile 2p, whose indicator is 1p.
    let new = |text: &str| Tilesets::new(Context::default(), sets(text));
    assert!(matches!(
        new("1p1p1p1p2p3p4p5p6p7p8p9p9p ツモ9p ドラ2p"),
        Err(TilesetsError::InvalidNumSameTiles(_))
    ));
    assert!(new("1p1p1p1p2p3p4p5p6p7p8p9p9p ツモ9p ドラ3p").is_ok());
}

#[test]
fn a_state_shows_its_groups() {
    let ts = Tilesets::new(
        Context::default(),
        sets("1s1s1s9s9s9p9p ロン9p 暗槓1p1p1p1p ポン1m1m1m ドラ8s9p"),
    )
    .unwrap();
    assert_eq!(ts.to_string(), "1s1s1s9s9s9p9p ポン1m1m1m 暗槓1p1p1p1p ロン9p");
    assert_eq!(
        ts.display_en().to_string(),
        "Dora 8s9p 1s1s1s9s9s9p9p Pon 1m1m1m Concealed Kong 1p1p1p1p Ron 9p"
    );
    assert!(ts.did_fulou());
    assert!(!ts.is_menqian());
    assert!(!ts.is_zimo);
    let all: Vec<String> = ts.tiles_without_doras().iter().map(|t| t.to_string()).collect();
    assert_eq!(all.concat(), "9p1s1s1s9s9s9p9p1m1m1m1p1p1p1p");
    assert_eq!(ts.clone().to_string(), ts.to_string());
    let plain = Tilesets::new(Context::default(), sets("1s1s1s2s3s4s5s6s7s8s9s9s9s ツモ5s")).unwrap();
    assert!(plain.is_menqian());
    assert_eq!(plain.to_string(), "1s1s1s2s3s4s5s6s7s8s9s9s9s ツモ5s");
}

#[test]
fn errors_of_the_parts_become_errors_of_the_whole() {
    let e: ParseError = TilesetsError::HandNotFound.into();
    assert!(matches!(e, ParseError::TilesetsError(TilesetsError::HandNotFound)));
    let inner = "カン1p".parse::<Tileset>().unwrap_err();
    let e: ParseError = inner.into();
    assert!(matches!(e, ParseError::ParseTilesetError(ParseTilesetError::UnknownAnnotation(_))));
}
