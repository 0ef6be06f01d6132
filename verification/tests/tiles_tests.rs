use agari::tile::Tile;
use agari::tiles::{Error, ParseError, Tiles};
use agari::utils::ceil_at;

fn group(text: &str) -> Tiles {
    text.parse::<Tiles>().unwrap()
}

fn one(text: &str) -> Tile {
    text.parse::<Tile>().unwrap()
}

#[test]
fn parse_tiles() {
    assert_eq!(
        &*"1s2s3s".parse::<Tiles>().unwrap(),
        &["1s".parse().unwrap(), "2s".parse().unwrap(), "3s".parse().unwrap(),]
    );

    assert_eq!(
        &*"123s".parse::<Tiles>().unwrap(),
        &["1s".parse().unwrap(), "2s".parse().unwrap(), "3s".parse().unwrap(),]
    );

    assert_eq!(
        &*"123s45p".parse::<Tiles>().unwrap(),
        &[
            "1s".parse().unwrap(),
            "2s".parse().unwrap(),
            "3s".parse().unwrap(),
            "4p".parse().unwrap(),
            "5p".parse().unwrap(),
        ]
    );

    assert_eq!(
        &*"白發中".parse::<Tiles>().unwrap(),
        &["白".parse().unwrap(), "發".parse().unwrap(), "中".parse().unwrap(),]
    );

    assert_eq!(
        &*"567z".parse::<Tiles>().unwrap(),
        &["白".parse().unwrap(), "發".parse().unwrap(), "中".parse().unwrap(),]
    );

    assert!("s".parse::<Tiles>().is_err());
    assert!("s12p".parse::<Tiles>().is_err());
    assert!("12sp".parse::<Tiles>().is_err());
    assert!("12sz".parse::<Tiles>().is_err());
    assert!("12東".parse::<Tiles>().is_err());
    assert!("12東p".parse::<Tiles>().is_err());
    assert!("あいうえおs".parse::<Tiles>().is_err());
    assert!("1sあいうえお".parse::<Tiles>().is_err());
    assert!("あいうえお".parse::<Tiles>().is_err());
}

#[test]
fn parse_tiles_errors_by_kind() {
    assert!(matches!("s".parse::<Tiles>(), Err(ParseError::EmptyBroadcast)));
    assert!(matches!("12東".parse::<Tiles>(), Err(ParseError::UnterminatedBroadcast)));
    assert!(matches!("8z".parse::<Tiles>(), Err(ParseError::ParseTileError(_))));
    assert!(matches!("x".parse::<Tiles>(), Err(ParseError::ParseTileError(_))));
    assert_eq!(group("12").len(), 0);
    assert_eq!(group("").len(), 0);
}

#[test]
fn new_sorts_and_keeps_equal_tiles_in_order() {
    let tiles = Tiles::new(vec![one("東"), one("5p"), one("5P"), one("1m"), one("9s"), one("1s")]);
    assert_eq!(tiles.to_string(), "1s9s1m5p5P東");
    let tiles = Tiles::new(vec![one("5P"), one("5p")]);
    assert_eq!(tiles.to_string(), "5P5p");
    assert_eq!(tiles.len(), 2);
    assert!(!tiles.is_empty());
}

#[test]
fn push_pop_remove_drain() {
    let mut tiles = group("1s3s5s");
    tiles.push(one("2s"));
    assert_eq!(tiles.to_string(), "1s2s3s5s");
    assert_eq!(tiles.pop(), Some(one("5s")));
    assert_eq!(tiles.remove(1), one("2s"));
    assert_eq!(tiles.to_string(), "1s3s");
    let mut tiles = group("1s2s3s4s5s");
    let taken = tiles.drain(1, 3);
    assert_eq!(taken, vec![one("2s"), one("3s")]);
    assert_eq!(tiles.to_string(), "1s4s5s");
    let mut empty = group("");
    assert_eq!(empty.pop(), None);
    assert_eq!(tiles.clone().into_inner(), vec![one("1s"), one("4s"), one("5s")]);
    assert_eq!(tiles.inner().len(), 3);
}

#[test]
fn position_and_contains() {
    let tiles = group("1s5s5S9s");
    assert_eq!(tiles.position(one("5S")), Some(1));
    assert_eq!(tiles.position(one("2s")), None);
    assert!(tiles.contains(one("9s")));
    assert!(!tiles.contains(one("9m")));
    assert_eq!(tiles.get(2).to_string(), "5S");
}

#[test]
fn checks_accept_what_they_name() {
    assert!(group("1s").check_last_tile().is_ok());
    assert!(matches!(group("1s2s").check_last_tile(), Err(Error::InvalidLastTile(_))));
    assert!(matches!(group("").check_last_tile(), Err(Error::InvalidLastTile(_))));
    assert!(group("5p5P5p").check_peng().is_ok());
    assert!(matches!(group("5p5p6p").check_peng(), Err(Error::InvalidPeng(_))));
    assert!(matches!(group("5p5p").check_peng(), Err(Error::InvalidPeng(_))));
    assert!(group("7s8s9s").check_chi().is_ok());
    assert!(group("3m1m2m").check_chi().is_ok());
    assert!(matches!(group("2s4s5s").check_chi(), Err(Error::InvalidChi(_))));
    assert!(matches!(group("8s9s1m").check_chi(), Err(Error::InvalidChi(_))));
    assert!(matches!(group("東南西").check_chi(), Err(Error::InvalidChi(_))));
    assert!(matches!(group("白發中").check_chi(), Err(Error::InvalidChi(_))));
    assert!(matches!(group("1s2s").check_chi(), Err(Error::InvalidPeng(_))));
    assert!(group("東東東東").check_gang().is_ok());
    assert!(matches!(group("東東東").check_gang(), Err(Error::InvalidPeng(_))));
    assert!(matches!(group("東東東南").check_gang(), Err(Error::InvalidPeng(_))));
}

#[test]
fn a_refused_group_comes_back_in_the_error() {
    match group("1s2s").check_last_tile() {
        Err(Error::InvalidLastTile(t)) => assert_eq!(t.to_string(), "1s2s"),
        _ => panic!("two tiles are no winning tile"),
    }
}

#[test]
fn groups_compare_without_the_red_flag() {
    assert_eq!(group("4p5P6p"), group("4p5p6p"));
    assert_ne!(group("4p5p6p"), group("4p5p7p"));
    assert_ne!(group("4p5p"), group("4p5p6p"));
}

#[test]
fn ceil_at_rounds_up_to_multiples() {
    assert_eq!(ceil_at(0, 10), 0);
    assert_eq!(ceil_at(20, 10), 20);
    assert_eq!(ceil_at(21, 10), 30);
    assert_eq!(ceil_at(34, 10), 40);
    assert_eq!(ceil_at(7680, 100), 7700);
    assert_eq!(ceil_at(1, 100), 100);
}
