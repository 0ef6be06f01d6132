use agari::context::{Context, Direction};
use agari::tile::{Error, Order, ParseError, Tile, TileKind, Zipai};

fn order_of(order: u8, is_red: bool) -> Order {
    Order::new(order).expect("invalid rank").with_red(is_red)
}

fn tile(text: &str) -> Tile {
    text.parse::<Tile>().unwrap()
}

#[test]
fn smp() {
    assert_eq!("4s", Tile::Suozi(order_of(4, false)).to_string());
    assert_eq!("5m", Tile::Wanzi(order_of(5, false)).to_string());
    assert_eq!("6p", Tile::Tongzi(order_of(6, false)).to_string());
    assert_eq!("5S", Tile::Suozi(order_of(5, true)).to_string());
    assert_eq!("5M", Tile::Wanzi(order_of(5, true)).to_string());
    assert_eq!("5P", Tile::Tongzi(order_of(5, true)).to_string());
    assert_eq!("東", Tile::Zipai(Zipai::East).to_string());
    assert_eq!("南", Tile::Zipai(Zipai::South).to_string());
    assert_eq!("西", Tile::Zipai(Zipai::West).to_string());
    assert_eq!("北", Tile::Zipai(Zipai::North).to_string());
    assert_eq!("白", Tile::Zipai(Zipai::Bai).to_string());
    assert_eq!("發", Tile::Zipai(Zipai::Fa).to_string());
    assert_eq!("中", Tile::Zipai(Zipai::Zhong).to_string());
}

#[test]
#[should_panic]
fn smp_invalid() {
    order_of(0, false);
    order_of(10, false);
    order_of(4, true);
}

#[test]
fn tile_parse() {
    assert_eq!("4s".parse::<Tile>().unwrap(), Tile::Suozi(order_of(4, false)));
    assert_eq!("5m".parse::<Tile>().unwrap(), Tile::Wanzi(order_of(5, false)));
    assert_eq!("6p".parse::<Tile>().unwrap(), Tile::Tongzi(order_of(6, false)));
    assert_eq!("5S".parse::<Tile>().unwrap(), Tile::Suozi(order_of(5, true)));
    assert_eq!("5M".parse::<Tile>().unwrap(), Tile::Wanzi(order_of(5, true)));
    assert_eq!("5P".parse::<Tile>().unwrap(), Tile::Tongzi(order_of(5, true)));
    assert_eq!("東".parse::<Tile>().unwrap(), Tile::Zipai(Zipai::East));
    assert_eq!("南".parse::<Tile>().unwrap(), Tile::Zipai(Zipai::South));
    assert_eq!("西".parse::<Tile>().unwrap(), Tile::Zipai(Zipai::West));
    assert_eq!("北".parse::<Tile>().unwrap(), Tile::Zipai(Zipai::North));
    assert_eq!("白".parse::<Tile>().unwrap(), Tile::Zipai(Zipai::Bai));
    assert_eq!("發".parse::<Tile>().unwrap(), Tile::Zipai(Zipai::Fa));
    assert_eq!("中".parse::<Tile>().unwrap(), Tile::Zipai(Zipai::Zhong));
    assert_eq!("1z".parse::<Tile>().unwrap(), Tile::Zipai(Zipai::East));
    assert_eq!("2z".parse::<Tile>().unwrap(), Tile::Zipai(Zipai::South));
    assert_eq!("3z".parse::<Tile>().unwrap(), Tile::Zipai(Zipai::West));
    assert_eq!("4z".parse::<Tile>().unwrap(), Tile::Zipai(Zipai::North));
    assert_eq!("5z".parse::<Tile>().unwrap(), Tile::Zipai(Zipai::Bai));
    assert_eq!("6z".parse::<Tile>().unwrap(), Tile::Zipai(Zipai::Fa));
    assert_eq!("7z".parse::<Tile>().unwrap(), Tile::Zipai(Zipai::Zhong));
    assert!("あ".parse::<Tile>().is_err());
    assert!("あい".parse::<Tile>().is_err());
}

#[test]
fn ordering() {
    let s4 = Tile::Suozi(order_of(4, false));
    let m5 = Tile::Wanzi(order_of(5, false));
    let p6 = Tile::Tongzi(order_of(6, false));
    let rs5 = Tile::Suozi(order_of(5, true));
    let rm5 = Tile::Wanzi(order_of(5, true));
    let rp5 = Tile::Tongzi(order_of(5, true));
    let east = Tile::Zipai(Zipai::East);
    let west = Tile::Zipai(Zipai::West);

    assert!(s4 < m5);
    assert!(m5 > s4);
    assert!(s4 < rs5);
    assert_eq!(m5, rm5);
    assert!(rp5 < p6);
    assert!(rs5 < rm5);
    assert!(east < west);
    assert!(west > east);
}

#[test]
fn next_prev() {
    let s4 = Tile::Suozi(order_of(4, false));
    let s5 = Tile::Suozi(order_of(5, false));
    let m4 = Tile::Wanzi(order_of(4, false));
    let rm5 = Tile::Wanzi(order_of(5, true));
    let m9 = Tile::Wanzi(order_of(9, false));
    let m1 = Tile::Wanzi(order_of(1, false));
    let east = Tile::Zipai(Zipai::East);
    let south = Tile::Zipai(Zipai::South);
    let west = Tile::Zipai(Zipai::West);
    let north = Tile::Zipai(Zipai::North);
    let haku = Tile::Zipai(Zipai::Bai);
    let hatu = Tile::Zipai(Zipai::Fa);
    let chun = Tile::Zipai(Zipai::Zhong);

    assert_eq!(s4.wrapping_next(), s5);
    assert_eq!(s5.wrapping_prev(), s4);
    assert_eq!(rm5.wrapping_prev(), m4);
    assert_eq!(m9.wrapping_next(), m1);
    assert_eq!(m1.wrapping_prev(), m9);
    assert_eq!(m9.next(), None);
    assert_eq!(m1.prev(), None);

    assert_eq!(east.wrapping_next(), south);
    assert_eq!(south.wrapping_next(), west);
    assert_eq!(west.wrapping_next(), north);
    assert_eq!(north.wrapping_next(), east);
    assert_eq!(haku.wrapping_next(), hatu);
    assert_eq!(hatu.wrapping_next(), chun);
    assert_eq!(chun.wrapping_next(), haku);

    assert_eq!(east.wrapping_prev(), north);
    assert_eq!(south.wrapping_prev(), east);
    assert_eq!(west.wrapping_prev(), south);
    assert_eq!(north.wrapping_prev(), west);
    assert_eq!(haku.wrapping_prev(), chun);
    assert_eq!(hatu.wrapping_prev(), haku);
    assert_eq!(chun.wrapping_prev(), hatu);
}

#[test]
fn fanpai() {
    let make_ctx = |player: Direction, place: Direction| Context {
        player,
        place,
        ..Context::default()
    };

    let east = Tile::Zipai(Zipai::East);
    let bai = Tile::Zipai(Zipai::Bai);

    assert_eq!(east.num_fan(&make_ctx(Direction::East, Direction::East)), 2);
    assert_eq!(east.num_fan(&make_ctx(Direction::East, Direction::West)), 1);
    assert_eq!(east.num_fan(&make_ctx(Direction::North, Direction::West)), 0);
    assert_eq!(bai.num_fan(&make_ctx(Direction::East, Direction::East)), 1);
}

#[test]
fn order() {
    assert!("4s".parse::<Tile>().unwrap() < "4m".parse::<Tile>().unwrap());
    assert!(Tile::Suozi(Order::new(4).unwrap()) < Tile::Wanzi(Order::new(4).unwrap()));
}

#[test]
fn order_new_accepts_exactly_one_to_nine() {
    assert!(matches!(Order::new(0), Err(Error::InvalidOrder)));
    assert!(matches!(Order::new(10), Err(Error::InvalidOrder)));
    for n in 1..=9u8 {
        let o = Order::new(n).unwrap();
        assert_eq!(o.number(), n);
        assert!(!o.is_red());
    }
}

#[test]
fn order_steps_stop_at_the_ends() {
    assert_eq!(Order::new(1).unwrap().prev(), None);
    assert_eq!(Order::new(9).unwrap().next(), None);
    assert_eq!(Order::new(5).unwrap().next().unwrap().number(), 6);
    assert_eq!(Order::new(5).unwrap().prev().unwrap().number(), 4);
    assert_eq!(Order::new(9).unwrap().wrapping_next().number(), 1);
    assert_eq!(Order::new(1).unwrap().wrapping_prev().number(), 9);
    assert!(!order_of(5, true).next().unwrap().is_red());
}

#[test]
fn with_red_refuses_honors() {
    assert!(matches!(Tile::Zipai(Zipai::East).with_red(true), Err(Error::InvalidRed)));
    let red = tile("5s").with_red(true).unwrap();
    assert!(red.is_red());
    assert_eq!(red.to_string(), "5S");
    assert!(!tile("5S").with_red(false).unwrap().is_red());
}

#[test]
fn tile_classes() {
    assert!(tile("5s").is_zhongzhang());
    assert!(!tile("1s").is_zhongzhang());
    assert!(!tile("東").is_zhongzhang());
    assert!(tile("9p").is_yaojiu());
    assert!(tile("白").is_yaojiu());
    assert!(!tile("2m").is_yaojiu());
    assert!(tile("北").is_feng());
    assert!(!tile("白").is_feng());
    assert!(tile("中").is_sanyuan());
    assert!(!tile("東").is_sanyuan());
    assert!(tile("發").is_green());
    for text in ["2s", "3s", "4s", "6s", "8s"] {
        assert!(tile(text).is_green());
    }
    for text in ["1s", "5s", "7s", "9s", "2m", "2p", "白"] {
        assert!(!tile(text).is_green());
    }
    assert_eq!(tile("3m").kind(), TileKind::Wanzi);
    assert_eq!(tile("南").kind(), TileKind::Zipai);
    assert_eq!(tile("南").order(), None);
    assert_eq!(tile("3m").order().unwrap().number(), 3);
}

#[test]
fn tile_parse_errors() {
    assert!(matches!("5x".parse::<Tile>(), Err(ParseError::InvalidChar('x'))));
    assert!(matches!("8z".parse::<Tile>(), Err(ParseError::InvalidChar('z'))));
    assert!(matches!("0s".parse::<Tile>(), Err(ParseError::TileError(Error::InvalidOrder))));
    assert!(matches!("as".parse::<Tile>(), Err(ParseError::TileError(Error::InvalidOrder))));
    assert!(matches!("".parse::<Tile>(), Err(ParseError::InvalidStringLen)));
    assert!(matches!("123".parse::<Tile>(), Err(ParseError::InvalidStringLen)));
    assert!(matches!("s".parse::<Tile>(), Err(ParseError::InvalidStringLen)));
}

#[test]
fn directions_read_and_show() {
    assert_eq!("東".parse::<Direction>().unwrap(), Direction::East);
    assert_eq!("South".parse::<Direction>().unwrap(), Direction::South);
    assert_eq!("西".parse::<Direction>().unwrap(), Direction::West);
    assert_eq!("North".parse::<Direction>().unwrap(), Direction::North);
    let err = "up".parse::<Direction>().unwrap_err();
    assert_eq!(err.0, "up");
    assert_eq!(Direction::West.to_string(), "西");
    assert_eq!(Direction::West.display_en().to_string(), "West");
    assert_eq!(Direction::default(), Direction::East);
    assert!(Context::default().is_parent());
    let ctx = Context { player: Direction::South, ..Context::default() };
    assert!(!ctx.is_parent());
    assert!(!ctx.clone().is_parent());
}

#[test]
fn tiles_come_from_text_in_two_ways() {
    assert_eq!(Tile::try_from("4s").unwrap(), tile("4s"));
    assert!(Tile::try_from("4x").is_err());
    assert_eq!(Tile::parse("中").unwrap(), Tile::Zipai(Zipai::Zhong));
    let e: ParseError = Error::InvalidRed.into();
    assert!(matches!(e, ParseError::TileError(Error::InvalidRed)));
    assert_eq!(TileKind::Suozi.to_string(), "索子");
    assert_eq!(TileKind::Zipai.to_string(), "字牌");
}
