use agari::agaritilesets::{
    enumerate_kezi, enumerate_machis, enumerate_quetou, extract_shunzi, range_same_tiles,
    AgariTilesets, MachiKind, Rongming,
};
use agari::context::Context;
use agari::tile::Tile;
use agari::tiles::Tiles;
use agari::tileset::{Tag, Tileset};
use agari::tilesets::Tilesets;

#[test]
fn machi() {
    let quetou = &"4s4s".parse().unwrap();
    let anshuns = &["1s2s3s".parse().unwrap()];
    let ankes =
        &["1s1s1s".parse().unwrap(), "1m1m1m".parse().unwrap(), "2m2m2m".parse().unwrap()];

    assert_eq!(
        &[MachiKind::Liangmian, MachiKind::Shuangpeng],
        &*enumerate_machis(quetou, anshuns, ankes, "1s".parse().unwrap())
    );

    assert_eq!(
        &[MachiKind::Qianzhang],
        &*enumerate_machis(quetou, anshuns, ankes, "2s".parse().unwrap())
    );

    assert_eq!(
        &[MachiKind::Bianzhang],
        &*enumerate_machis(quetou, anshuns, ankes, "3s".parse().unwrap())
    );

    assert_eq!(
        &[MachiKind::Shuangpeng],
        &*enumerate_machis(quetou, anshuns, ankes, "1m".parse().unwrap())
    );

    assert_eq!(
        &[MachiKind::Qianzhang, MachiKind::Danqi],
        &*enumerate_machis(&"2s2s".parse().unwrap(), anshuns, ankes, "2s".parse().unwrap())
    );

    assert_eq!(
        &[MachiKind::Yandan],
        &*enumerate_machis(quetou, anshuns, ankes, "4s".parse().unwrap())
    );
}

fn hand_of(tiles: &str) -> Tiles {
    tiles.parse().unwrap()
}

fn state_of(hand: &str, last: &str) -> Tilesets {
    let tilesets = vec![
        Tileset::new(Tag::Hand, hand_of(hand)).unwrap(),
        Tileset::new(Tag::Zimo, hand_of(last)).unwrap(),
        Tileset::new(Tag::Dora, Tiles::new(Vec::new())).unwrap(),
    ];

    Tilesets::new(Context::default(), tilesets).unwrap()
}

fn parse_state(from: &str) -> Tilesets {
    let tilesets = from.split_whitespace().map(|t| t.parse().unwrap()).collect();
    Tilesets::new(Context::default(), tilesets).unwrap()
}

fn texts(groups: &[Tiles]) -> Vec<String> {
    groups.iter().map(|g| g.to_string()).collect()
}

#[test]
fn same_tile_counting() {
    let v: Vec<_> = range_same_tiles(&hand_of("1s1s1s2s2s2s3s3s3s4s4s4s東東"));
    assert_eq!(v, [0..3, 3..6, 6..9, 9..12, 12..14]);
}

#[test]
fn quetou() {
    let hand = hand_of("1s1s1s2s2s2s3s3s3s4s4s4s東東");
    let cands = enumerate_quetou(&hand);

    assert_eq!(
        cands,
        [
            (hand_of("1s1s"), hand_of("1s2s2s2s3s3s3s4s4s4s東東")),
            (hand_of("2s2s"), hand_of("1s1s1s2s3s3s3s4s4s4s東東")),
            (hand_of("3s3s"), hand_of("1s1s1s2s2s2s3s4s4s4s東東")),
            (hand_of("4s4s"), hand_of("1s1s1s2s2s2s3s3s3s4s東東")),
            (hand_of("東東"), hand_of("1s1s1s2s2s2s3s3s3s4s4s4s")),
        ]
    )
}

#[test]
fn decompose1() {
    let tilesets = state_of("1s1s1s2s2s2s3s3s3s4s4s4s東", "東");
    let agaris = AgariTilesets::enumerate(&tilesets);

    assert_eq!(agaris.len(), 3);
}

#[test]
fn decompose2() {
    let tilesets = state_of("中中中白白白發發發東東東西", "西");
    let agaris = AgariTilesets::enumerate(&tilesets);

    assert_eq!(agaris.len(), 1);
}

#[test]
fn ranges_of_an_empty_group() {
    assert_eq!(range_same_tiles(&hand_of("")), [0..0]);
    assert_eq!(range_same_tiles(&hand_of("5s")), [0..1]);
}

#[test]
fn kezi_candidates_come_as_bit_masks() {
    let rest = hand_of("1s1s1s2s3s4s5s5s5s");
    let cands = enumerate_kezi(&rest);
    assert_eq!(cands.len(), 4);
    assert_eq!(texts(&cands[0].0), Vec::<String>::new());
    assert_eq!(cands[0].1.to_string(), "1s1s1s2s3s4s5s5s5s");
    assert_eq!(texts(&cands[1].0), ["1s1s1s"]);
    assert_eq!(cands[1].1.to_string(), "2s3s4s5s5s5s");
    assert_eq!(texts(&cands[2].0), ["5s5s5s"]);
    assert_eq!(cands[2].1.to_string(), "1s1s1s2s3s4s");
    assert_eq!(texts(&cands[3].0), ["1s1s1s", "5s5s5s"]);
    assert_eq!(cands[3].1.to_string(), "2s3s4s");
}

#[test]
fn a_fourth_tile_stays_when_a_triplet_leaves() {
    let cands = enumerate_kezi(&hand_of("2s2s2s2s3s4s"));
    assert_eq!(cands.len(), 2);
    assert_eq!(texts(&cands[1].0), ["2s2s2s"]);
    assert_eq!(cands[1].1.to_string(), "2s3s4s");
}

#[test]
fn runs_are_taken_from_the_lowest_tile() {
    let runs = extract_shunzi(hand_of("1p2p2p3p3p4p")).unwrap();
    assert_eq!(texts(&runs), ["1p2p3p", "2p3p4p"]);
    let runs = extract_shunzi(hand_of("4p5p5P6p6p7p")).unwrap();
    assert_eq!(texts(&runs), ["4p5p6p", "5P6p7p"]);
    assert_eq!(extract_shunzi(hand_of("")).unwrap().len(), 0);
    assert!(extract_shunzi(hand_of("1p2p4p")).is_none());
    assert!(extract_shunzi(hand_of("8p9p1s")).is_none());
    assert!(extract_shunzi(hand_of("東南西")).is_none());
    assert!(extract_shunzi(hand_of("1p1p1p")).is_none());
}

#[test]
fn every_decomposition_holds_the_tiles_of_the_hand() {
    let tilesets = parse_state("1p1p2p2p3p3p4p4p5p5p6p6p7p ツモ7p");
    let mut expected: Vec<String> =
        "1p1p2p2p3p3p4p4p5p5p6p6p7p7p".parse::<Tiles>().unwrap().iter().map(|t| t.to_string()).collect();
    expected.sort();
    let agaris = AgariTilesets::enumerate(&tilesets);
    assert!(!agaris.is_empty());
    for agari in &agaris {
        let mut got: Vec<String> = Vec::new();
        for t in agari.quetou().iter() {
            got.push(t.to_string());
        }
        for g in agari.kezis_in_hand().iter().chain(agari.shunzis_in_hand().iter()) {
            for t in g.iter() {
                got.push(t.to_string());
            }
        }
        got.sort();
        assert_eq!(got, expected);
        assert_eq!(agari.mianzis().len(), 4);
        assert_eq!(agari.quetou().len(), 2);
    }
}

#[test]
fn a_claimed_tile_opens_a_run_before_a_triplet() {
    // 4p is in the run 4p5p6p and in the triplet 4p4p4p.
    let tilesets = parse_state("5s6s7s4m5m6m4p4p4p5p6p西西 ロン4p");
    let agaris = AgariTilesets::enumerate(&tilesets);
    // pair 4p4p with the runs 4p5p6p ×? is not possible; look at each result.
    for agari in &agaris {
        if texts(&agari.kezis_in_hand()).contains(&"4p4p4p".to_string())
            || texts(&agari.ronghe_mingke()).contains(&"4p4p4p".to_string())
        {
            // the triplet 4p4p4p leaves 4p5p6p as a run, so the run opens
            assert_eq!(texts(&agari.ronghe_mingshun()), ["4p5p6p"]);
            assert_eq!(texts(&agari.ronghe_mingke()), Vec::<String>::new());
            assert_eq!(texts(&agari.ankes()), ["4p4p4p"]);
        }
    }
    assert!(!agaris.is_empty());
}

#[test]
fn a_claimed_tile_opens_a_triplet_when_no_run_holds_it() {
    let tilesets = parse_state("5s6s7s4m5m6m4p4p4p5p6p西西 ロン西");
    let agaris = AgariTilesets::enumerate(&tilesets);
    assert_eq!(agaris.len(), 1);
    let agari = &agaris[0];
    assert_eq!(agari.machi(), MachiKind::Shuangpeng);
    assert_eq!(texts(&agari.ronghe_mingke()), ["西西西"]);
    assert_eq!(texts(&agari.mingkes()), ["西西西"]);
    assert_eq!(texts(&agari.ankes()), Vec::<String>::new());
    assert_eq!(texts(&agari.kezis()), ["西西西"]);
    assert_eq!(texts(&agari.shunzis()), ["5s6s7s", "4m5m6m", "4p5p6p"]);
    assert_eq!(texts(&agari.anshuns()), ["5s6s7s", "4m5m6m", "4p5p6p"]);
    assert_eq!(texts(&agari.mingshuns()), Vec::<String>::new());
    assert_eq!(agari.quetou().to_string(), "4p4p");
    assert!(agari.is_menqian());
    assert!(!agari.is_zimo());
    assert!(agari.context().is_parent());
    assert_eq!(agari.to_string(), "西西西 5s6s7s 4m5m6m 4p5p6p 4p4p 待ち: シャンポン");
    assert_eq!(agari.clone().to_string(), agari.to_string());
    assert_eq!(agari.tilesets().to_string(), "5s6s7s4m5m6m4p4p4p5p6p西西 ロン西");
}

#[test]
fn a_drawn_tile_opens_nothing() {
    let tilesets = parse_state("5s6s7s4m5m6m4p4p4p5p6p西西 ツモ西");
    let agaris = AgariTilesets::enumerate(&tilesets);
    assert_eq!(agaris.len(), 1);
    assert_eq!(texts(&agaris[0].ronghe_mingke()), Vec::<String>::new());
    assert_eq!(texts(&agaris[0].kezis_in_hand()), ["西西西"]);
    assert_eq!(texts(&agaris[0].pengs()), Vec::<String>::new());
    assert_eq!(texts(&agaris[0].chis()), Vec::<String>::new());
    assert_eq!(texts(&agaris[0].minggangs()), Vec::<String>::new());
    assert_eq!(texts(&agaris[0].angangs()), Vec::<String>::new());
}

#[test]
fn waits_on_honors_are_never_two_sided() {
    let quetou: Tiles = "4s4s".parse().unwrap();
    let east: Tile = "東".parse().unwrap();
    let anshuns: [Tiles; 1] = ["1s2s3s".parse().unwrap()];
    let ankes: [Tiles; 1] = ["東東東".parse().unwrap()];
    assert_eq!(enumerate_machis(&quetou, &anshuns, &ankes, east), [MachiKind::Shuangpeng]);
    let seven: Tile = "7s".parse().unwrap();
    let high: [Tiles; 1] = ["7s8s9s".parse().unwrap()];
    assert_eq!(enumerate_machis(&quetou, &high, &ankes, seven), [MachiKind::Bianzhang]);
    // of two runs that end in the tile the first alone decides
    let two: [Tiles; 2] = ["5s6s7s".parse().unwrap(), "7s8s9s".parse().unwrap()];
    assert_eq!(enumerate_machis(&quetou, &two, &ankes, seven), [MachiKind::Liangmian]);
    let other: [Tiles; 2] = ["7s8s9s".parse().unwrap(), "5s6s7s".parse().unwrap()];
    assert_eq!(enumerate_machis(&quetou, &other, &ankes, seven), [MachiKind::Bianzhang]);
    let nine: Tile = "9s".parse().unwrap();
    assert_eq!(enumerate_machis(&quetou, &high, &ankes, nine), [MachiKind::Liangmian]);
    let none: [Tiles; 0] = [];
    assert_eq!(enumerate_machis(&quetou, &none, &none, "4s".parse().unwrap()), [MachiKind::Danqi]);
    assert_eq!(enumerate_machis(&quetou, &none, &none, "5s".parse().unwrap()), []);
}

#[test]
fn opened_groups_compare_by_their_tiles() {
    let a = Rongming::Mingke(hand_of("西西西"));
    assert_eq!(a.clone(), a);
    assert_ne!(a, Rongming::Mingshun(hand_of("西西西")));
    assert_ne!(a, Rongming::Neither);
    assert_eq!(a.mingke().unwrap().to_string(), "西西西");
    assert!(a.mingshun().is_none());
    assert_eq!(texts(&a.iter_mingke()), ["西西西"]);
    assert_eq!(a.iter_mingshun().len(), 0);
    assert_eq!(MachiKind::Yandan.to_string(), "ノベタン");
}
