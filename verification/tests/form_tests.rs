use agari::agaritilesets::AgariTilesets;
use agari::context::{Context, Direction, Lizhi};
use agari::form::{
    check_daisanyuan, check_duiduihe, check_fanpai, check_hunquandaiyaojiu_chunquandaiyaojiu,
    check_ikki_tukan, check_pinghe, check_sananke_sianke, check_sangangzi_sigangzi,
    check_sanshoku_dojun, check_sanshoku_doko, check_shousanyuan, check_shousushi_daisushi,
    check_yibeikou_liangbeigou, special_check_certadebugrm, special_check_dora,
    special_check_duanyaojiu, special_check_hungyise_qingyise, special_check_hunlaotou,
    special_check_jiulianbaodeng, special_check_kokushimuso, special_check_lizhi,
    special_check_luyise, special_check_menqianqingzimohu, special_check_qiduizi,
    special_check_qinglaotou, special_check_ziyise, Form, Point,
};
use agari::tiles::Tiles;
use agari::tilesets::Tilesets;
use std::cmp::Ordering;

fn state(from: &str) -> Tilesets {
    let tilesets = from.split_whitespace().map(|t| t.parse().unwrap()).collect();
    Tilesets::new(Context::default(), tilesets).unwrap()
}

fn state_in(from: &str, context: Context) -> Tilesets {
    let tilesets = from.split_whitespace().map(|t| t.parse().unwrap()).collect();
    Tilesets::new(context, tilesets).unwrap()
}

fn only_agari(from: &str) -> AgariTilesets {
    let agaris = AgariTilesets::enumerate(&state(from));
    assert_eq!(agaris.len(), 1, "{}", from);
    agaris[0].clone()
}

#[test]
fn judge_order() {
    assert_eq!(
        (Form::Ikkitsukan(false).point()).cmp(&Form::Hungyise(false).point()),
        Ordering::Less
    );
}

#[test]
fn points_compare_by_fan_then_fu() {
    assert_eq!(Point::with_fu(3, 40).cmp(&Point::with_fu(3, 30)), Ordering::Greater);
    assert_eq!(Point::with_fu(2, 110).cmp(&Point::with_fu(3, 20)), Ordering::Less);
    assert_eq!(Point::new_yiman().cmp(&Point::new(0)), Ordering::Equal);
    assert_eq!(Point::new_yiman().cmp(&Point::new(13)), Ordering::Less);
    assert!(Point::new(1) < Point::new(2));
    assert!(Point::new_yiman() == Point::new(0));
    assert!(Point::new(5) == Point::new_manguan());
}

#[test]
fn payments_below_five_fan() {
    // fu × 4 (6 for the dealer) × 2^(fan + 2), rounded up to hundreds
    assert_eq!(Point::with_fu(1, 30).value(false), 1000);
    assert_eq!(Point::with_fu(1, 30).value(true), 1500);
    assert_eq!(Point::with_fu(1, 40).value(true), 2000);
    assert_eq!(Point::with_fu(1, 40).value(false), 1300);
    assert_eq!(Point::with_fu(3, 40).value(true), 7700);
    assert_eq!(Point::with_fu(3, 25).value(true), 4800);
    assert_eq!(Point::with_fu(2, 20).value(false), 1300);
    assert_eq!(Point::with_fu(0, 0).value(true), 0);
    // capped at the payment of five fan
    assert_eq!(Point::with_fu(4, 40).value(true), 12000);
    assert_eq!(Point::with_fu(4, 40).value(false), 8000);
    assert_eq!(Point::with_fu(3, 70).value(false), 8000);
    // 4 fan 30 fu and 3 fan 60 fu are rounded up to it
    assert_eq!(Point::with_fu(4, 30).value(false), 8000);
    assert_eq!(Point::with_fu(4, 30).value(true), 12000);
    assert_eq!(Point::with_fu(3, 60).value(false), 8000);
    assert_eq!(Point::with_fu(4, 20).value(false), 5200);
    assert_eq!(Point::with_fu(4, 25).value(false), 6400);
}

#[test]
fn payments_from_five_fan() {
    let table: [(u32, u32, u32); 9] = [
        (5, 12000, 8000),
        (6, 18000, 12000),
        (7, 18000, 12000),
        (8, 24000, 16000),
        (10, 24000, 16000),
        (11, 36000, 24000),
        (12, 36000, 24000),
        (13, 48000, 32000),
        (40, 48000, 32000),
    ];
    for (fan, parent, child) in table {
        assert_eq!(Point::with_fu(fan, 30).value(true), parent);
        assert_eq!(Point::with_fu(fan, 30).value(false), child);
    }
    assert_eq!(Point::new_yiman().value(true), 48000);
    assert_eq!(Point::new_yiman().value(false), 32000);
    let double = Point { fan: 0, fu: 0, yiman: 2 };
    assert_eq!(double.to_string(), "26翻");
    assert_eq!(double.display_full(true).to_string(), "96000点 ダブル役満");
    assert_eq!(double.value(true), 96000);
    assert_eq!(double.value(false), 64000);
    assert!(double.is_true_yiman());
    assert!(double.is_yiman());
    assert!(!Point::new(13).is_true_yiman());
    assert!(Point::new(13).is_yiman());
    assert!(!Point::new(12).is_yiman());
}

#[test]
fn ranks_by_name() {
    let rank = |p: Point| p.rank(true);
    assert_eq!(rank(Point::with_fu(1, 30)), None);
    assert_eq!(rank(Point::with_fu(4, 30)).unwrap(), "満貫");
    assert_eq!(rank(Point::with_fu(4, 40)).unwrap(), "満貫");
    assert_eq!(rank(Point::new(5)).unwrap(), "満貫");
    assert_eq!(rank(Point::new(6)).unwrap(), "跳満");
    assert_eq!(rank(Point::new(8)).unwrap(), "倍満");
    assert_eq!(rank(Point::new(11)).unwrap(), "三倍満");
    assert_eq!(rank(Point::new(13)).unwrap(), "役満");
    assert_eq!(rank(Point::new_yiman()).unwrap(), "役満");
    assert_eq!(rank(Point { fan: 0, fu: 0, yiman: 2 }).unwrap(), "ダブル役満");
    assert_eq!(rank(Point { fan: 0, fu: 0, yiman: 3 }).unwrap(), "トリプル役満");
    assert_eq!(rank(Point { fan: 0, fu: 0, yiman: 4 }).unwrap(), "四倍役満");
    assert_eq!(rank(Point { fan: 0, fu: 0, yiman: 5 }).unwrap(), "五倍役満");
    assert_eq!(rank(Point { fan: 0, fu: 0, yiman: 12 }).unwrap(), "12倍役満");
}

#[test]
fn points_show_fan_and_fu() {
    assert_eq!(Point::with_fu(3, 40).to_string(), "3翻40符");
    assert_eq!(Point::new(3).to_string(), "3翻");
    assert_eq!(Point::with_fu(5, 40).to_string(), "5翻");
    assert_eq!(Point::with_fu(3, 40).display_full(true).to_string(), "3翻40符 7700点");
    assert_eq!(Point::with_fu(11, 30).display_full(true).to_string(), "11翻 36000点 三倍満");
    assert_eq!(Point::new_yiman().display_full(false).to_string(), "32000点 役満");
    assert_eq!(Form::Qiduizi.display().to_string(), "2翻25符 七対子");
    assert_eq!(Form::Sianke(true).display().to_string(), "13翻 四暗刻単騎");
    assert_eq!(Form::Sianke(false).name(), "四暗刻");
    assert_eq!(Form::Kokushimuso(false).name(), "国士無双");
    assert_eq!(Form::Jiulianbaodeng(true).name(), "純正九蓮宝燈");
    assert_eq!(Form::Jiulianbaodeng(false).name(), "九蓮宝燈");
    assert_eq!(Form::Dora(3).display().to_string(), "3翻 ドラ");
}

#[test]
fn the_sum_of_points_adds_each_part() {
    let sum = Point::sum(&vec![Point::new(1), Form::Qiduizi.point(), Point::new_yiman()]);
    assert_eq!(sum.fan, 3);
    assert_eq!(sum.fu, 25);
    assert_eq!(sum.yiman, 1);
    let none = Point::sum(&Vec::new());
    assert_eq!((none.fan, none.fu, none.yiman), (0, 0, 0));
}

#[test]
fn patterns_worth_more_when_concealed() {
    assert_eq!(Form::Sanshokudojun(true).point().fan, 2);
    assert_eq!(Form::Sanshokudojun(false).point().fan, 1);
    assert_eq!(Form::Hungyise(true).point().fan, 3);
    assert_eq!(Form::Hungyise(false).point().fan, 2);
    assert_eq!(Form::Qingyise(true).point().fan, 6);
    assert_eq!(Form::Qingyise(false).point().fan, 5);
    assert_eq!(Form::Fanpai(3).point().fan, 3);
    assert_eq!(Form::Daisangen.point().yiman, 1);
    assert_eq!(Form::Daisangen.point().fan, 0);
    let limits = [
        Form::Sianke(false),
        Form::Daisangen,
        Form::Kokushimuso(true),
        Form::Luyise,
        Form::Ziyise,
        Form::Qinglaotou,
        Form::Sigangzi,
        Form::Shousushi,
        Form::Daisushi,
        Form::Jiulianbaodeng(false),
        Form::Dihe,
        Form::Tianhe,
    ];
    for form in limits {
        let p = form.point();
        assert_eq!((p.fan, p.fu, p.yiman), (0, 0, 1));
        assert!(p.is_yiman());
        assert!(p.is_true_yiman());
    }
    assert_eq!(Form::Lizhi.point().yiman, 0);
    assert!(Form::Dora(1).is_dora());
    assert!(!Form::Lizhi.is_dora());
}

#[test]
fn ready_hands_come_from_the_context() {
    let with = |lizhi: Lizhi| {
        let ts = state_in(
            "1p1p1p2p2p2p3p3p3p4p4p4p5p ツモ5p",
            Context { lizhi, ..Context::default() },
        );
        special_check_lizhi(&ts).into_vec()
    };
    assert_eq!(with(Lizhi::Undeclared), []);
    assert_eq!(with(Lizhi::Lizhi), [Form::Lizhi]);
    assert_eq!(with(Lizhi::LizhiIppatsu), [Form::Lizhi, Form::Ippatsu]);
    assert_eq!(with(Lizhi::DoubleLizhi), [Form::Doublelizhi]);
    assert_eq!(with(Lizhi::DoubleLizhiIppatsu), [Form::Doublelizhi, Form::Ippatsu]);
}

#[test]
fn bonus_tiles_are_counted_with_the_red_tiles() {
    assert_eq!(special_check_dora(&state("1p1p1p2p2p2p3p3p3p4p4p4p5p ツモ5p")), None);
    assert_eq!(
        special_check_dora(&state("1p1p1p2p2p2p3p3p3p4p4p4p5p ツモ5P")),
        Some(Form::Dora(1))
    );
    assert_eq!(
        special_check_dora(&state("1p1p2p3p4p4p5p6p6p7p7p8p9p ツモ5P ドラ9p9p東9m")),
        Some(Form::Dora(3))
    );
    assert_eq!(
        special_check_dora(&state("2m2m2m3m3m3m4m4m4m5m5m5m1m ツモ1m ドラ2m3m4m")),
        Some(Form::Dora(9))
    );
}

#[test]
fn whole_hand_patterns() {
    let simple = state("2p3p4p2s3s4s5s6s7s3m4m5m8p ツモ8p");
    assert_eq!(special_check_duanyaojiu(&simple), Some(Form::Duanyaojiu));
    assert_eq!(special_check_menqianqingzimohu(&simple), Some(Form::Menqianqingzimohu));
    assert_eq!(special_check_hungyise_qingyise(&simple), None);
    assert_eq!(special_check_hunlaotou(&simple), None);
    let claimed = state("2p3p4p2s3s4s5s6s7s3m4m5m8p ロン8p");
    assert_eq!(special_check_menqianqingzimohu(&claimed), None);
    let open = state("2p3p4p2s3s4s5s6s7s8p ツモ8p チー3m4m5m");
    assert_eq!(special_check_menqianqingzimohu(&open), None);
    assert_eq!(special_check_duanyaojiu(&open), Some(Form::Duanyaojiu));
    let terminal = state("1p2p3p2s3s4s5s6s7s3m4m5m8p ツモ8p");
    assert_eq!(special_check_duanyaojiu(&terminal), None);

    let pure = state("1p1p2p2p3p3p4p4p5p5p6p6p7p ツモ7p");
    assert_eq!(special_check_hungyise_qingyise(&pure), Some(Form::Qingyise(true)));
    let mixed = state("1s2s3s4s5s6s6s7s8s8s9s西西 ロン7s");
    assert_eq!(special_check_hungyise_qingyise(&mixed), Some(Form::Hungyise(true)));
    let mixed_open = state("1s2s3s4s5s6s8s8s西西 ロン西 チー6s7s8s");
    assert_eq!(special_check_hungyise_qingyise(&mixed_open), Some(Form::Hungyise(false)));

    let honors = state("東東東南南南西西西北北北白 ツモ白");
    assert_eq!(special_check_ziyise(&honors), Some(Form::Ziyise));
    assert_eq!(special_check_hungyise_qingyise(&honors), None);
    assert_eq!(special_check_hunlaotou(&honors), Some(Form::Hunlaotou));
    assert_eq!(special_check_qinglaotou(&honors), None);
    assert_eq!(special_check_ziyise(&mixed), None);

    let green = state("2s2s2s2s3s4s4s6s6s6s8s8s8s ロン3s");
    assert_eq!(special_check_luyise(&green), Some(Form::Luyise));
    assert_eq!(special_check_luyise(&pure), None);
    let green_fa = state("2s3s4s2s3s4s6s6s6s8s8s發發 ロン發");
    assert_eq!(special_check_luyise(&green_fa), Some(Form::Luyise));

    let ends = state("1s1s1s9s9s9s1m1m1m9m9m9m1p ツモ1p");
    assert_eq!(special_check_qinglaotou(&ends), Some(Form::Qinglaotou));
    assert_eq!(special_check_hunlaotou(&ends), Some(Form::Hunlaotou));
    let with_honor = state("1m1m9m9m1s1s1s東東東 ロン9m ポン白白白");
    assert_eq!(special_check_qinglaotou(&with_honor), None);
    assert_eq!(special_check_hunlaotou(&with_honor), Some(Form::Hunlaotou));
}

#[test]
fn seven_pairs_need_seven_different_pairs() {
    assert_eq!(
        special_check_qiduizi(&state("3s3s5s5s1p6p6p東東白白中中 ツモ1p")),
        Some(Form::Qiduizi)
    );
    assert_eq!(special_check_qiduizi(&state("3s3s3s3s1p6p6p東東白白中中 ツモ1p")), None);
    assert_eq!(special_check_qiduizi(&state("3s3s5s5s1p6p6p東東白白中發 ツモ1p")), None);
    assert_eq!(special_check_qiduizi(&state("3s3s5s5s1p6p6p東東白 ツモ1p ポン中中中")), None);
}

#[test]
fn thirteen_orphans_and_whether_the_wait_was_thirteen_sided() {
    assert_eq!(
        special_check_kokushimuso(&state("1s9s1m9m1p9p東南西北白發中 ツモ中")),
        Some(Form::Kokushimuso(true))
    );
    assert_eq!(
        special_check_kokushimuso(&state("1s9s1m9m1p9p東南西北白中中 ツモ發")),
        Some(Form::Kokushimuso(false))
    );
    assert_eq!(special_check_kokushimuso(&state("1s9s1m9m1p9p東南西北白中中 ツモ2s")), None);
    assert_eq!(special_check_kokushimuso(&state("1s1s1m9m1p9p東南西北白發中 ツモ中")), None);
}

#[test]
fn nine_gates_in_each_suit() {
    assert_eq!(
        special_check_jiulianbaodeng(&state("1s1s1s2s3s4s5s6s7s8s9s9s9s ツモ5s")),
        Some(Form::Jiulianbaodeng(true))
    );
    assert_eq!(
        special_check_jiulianbaodeng(&state("1m1m1m2m3m4m5m5m6m7m8m9m9m ツモ9m")),
        Some(Form::Jiulianbaodeng(false))
    );
    assert_eq!(
        special_check_jiulianbaodeng(&state("1p1p1p2p3p4p5p6p7p8p9p9p9p ツモ1p")),
        Some(Form::Jiulianbaodeng(true))
    );
    assert_eq!(special_check_jiulianbaodeng(&state("1p1p1p2p3p4p5p6p7p8p9p9p東 ツモ東")), None);
    assert_eq!(special_check_jiulianbaodeng(&state("1p1p2p2p3p3p4p4p5p5p6p6p7p ツモ7p")), None);
}

#[test]
fn a_shape_of_ones_own() {
    let ts = state("1s1s1s2s3s4s5s6s7s8s9s9s9s ツモ5s");
    let target: Tiles = "1s1s1s2s3s4s5s6s7s8s9s9s9s".parse().unwrap();
    assert_eq!(special_check_certadebugrm(&ts, target, Form::Sianke), Some(Form::Sianke(true)));
    let other: Tiles = "1s1s1s2s3s4s5s5s6s7s8s9s9s".parse().unwrap();
    assert_eq!(special_check_certadebugrm(&ts, other, Form::Sianke), Some(Form::Sianke(false)));
    let wrong: Tiles = "1m1m1m2m3m4m5m6m7m8m9m9m9m".parse().unwrap();
    assert_eq!(special_check_certadebugrm(&ts, wrong, Form::Sianke), None);
    let open = state("1s1s1s2s3s4s5s6s7s8s ツモ5s ポン9s9s9s");
    let target: Tiles = "1s1s1s2s3s4s5s6s7s8s9s9s9s".parse().unwrap();
    assert_eq!(special_check_certadebugrm(&open, target, Form::Sianke), None);
}

#[test]
fn value_tiles_count_winds_and_dragons() {
    let agari = only_agari("1m1m9m9m1s1s1s東東東 ロン9m ポン白白白");
    // 東 is round wind and seat wind, 白 is a dragon
    assert_eq!(check_fanpai(&agari), Some(Form::Fanpai(3)));
    assert_eq!(check_duiduihe(&agari), Some(Form::Duiduihe));
    assert_eq!(check_sananke_sianke(&agari), None);
    assert_eq!(check_hunquandaiyaojiu_chunquandaiyaojiu(&agari), None);
    let ts = state_in(
        "5s6s7s4m5m6m4p4p4p5p6p西西 ロン西",
        Context { player: Direction::West, place: Direction::East, ..Context::default() },
    );
    let agaris = AgariTilesets::enumerate(&ts);
    assert_eq!(check_fanpai(&agaris[0]), Some(Form::Fanpai(1)));
    let none = only_agari("5s6s7s4m5m6m4p4p4p5p6p西西 ロン西");
    assert_eq!(check_fanpai(&none), None);
}

#[test]
fn all_runs_need_a_pair_that_is_no_honor_and_a_two_sided_wait() {
    let find = |from: &str| -> Vec<Option<Form>> {
        AgariTilesets::enumerate(&state(from)).iter().map(check_pinghe).collect()
    };
    assert_eq!(find("1p2p2p3p3p4p6p6p7p7p8p9s9s ロン8p"), [Some(Form::Pinghe)]);
    assert_eq!(find("1p2p2p3p3p4p6p6p7p7p8p南南 ロン8p"), [None]);
    assert_eq!(find("1p2p2p3p3p4p6p6p7p7p8p東東 ロン8p"), [None]);
    assert_eq!(find("1p2p2p3p3p4p6p6p7p7p8p白白 ロン8p"), [None]);
    // closed wait
    assert_eq!(find("1p2p3p2p3p4p6p6p7p8p8p南南 ロン7p"), [None]);
    // not concealed
    assert_eq!(find("2p3p4p6p6p7p7p8p南南 ロン8p チー1p2p3p"), [None]);
    // a triplet among the groups
    assert_eq!(find("1p2p3p2p2p2p6p6p7p7p8p南南 ロン8p"), [None]);
}

#[test]
fn pairs_of_equal_runs() {
    let one = only_agari("1p2p2p3p3p4p6p6p7p7p8p南南 ロン8p");
    assert_eq!(check_yibeikou_liangbeigou(&one), Some(Form::Yibeikou));
    let none = only_agari("1p2p3p2s3s4s6p6p7p7p8p南南 ロン5p");
    assert_eq!(check_yibeikou_liangbeigou(&none), None);
    let open = only_agari("6p6p7p7p8p南南 ロン8p チー1p2p3p チー2s3s4s");
    assert_eq!(check_yibeikou_liangbeigou(&open), None);
    let agaris = AgariTilesets::enumerate(&state("1p1p2p2p3p3p4p4p5p5p6p6p7p ツモ7p"));
    let found: Vec<Option<Form>> = agaris.iter().map(check_yibeikou_liangbeigou).collect();
    assert!(found.contains(&Some(Form::Liangbeigou)));
    let four = AgariTilesets::enumerate(&state("1p1p1p1p2p2p2p2p3p3p3p3p9p ツモ9p"));
    let found: Vec<Option<Form>> = four.iter().map(check_yibeikou_liangbeigou).collect();
    assert!(found.contains(&Some(Form::Liangbeigou)));
}

#[test]
fn three_suits_and_straights() {
    let runs = only_agari("2p3p4p2s3s4s2m3m4m7s8s9s北 ツモ北");
    assert_eq!(check_sanshoku_dojun(&runs), Some(Form::Sanshokudojun(true)));
    assert_eq!(check_sanshoku_doko(&runs), None);
    assert_eq!(check_ikki_tukan(&runs), None);
    let open = only_agari("2p3p4p2s3s4s7s8s9s北 ツモ北 チー2m3m4m");
    assert_eq!(check_sanshoku_dojun(&open), Some(Form::Sanshokudojun(false)));
    let triplets = only_agari("2p2p2p2s2s2s2m2m2m7s8s9s北 ツモ北");
    assert_eq!(check_sanshoku_doko(&triplets), Some(Form::Sanshokudoko));
    assert_eq!(check_sanshoku_dojun(&triplets), None);
    assert_eq!(check_sananke_sianke(&triplets), Some(Form::Sananke));
    let straights = AgariTilesets::enumerate(&state("1s2s3s4s5s6s6s7s8s8s9s西西 ロン7s"));
    assert!(!straights.is_empty());
    for straight in &straights {
        assert_eq!(check_ikki_tukan(straight), Some(Form::Ikkitsukan(true)));
    }
    let two_suits = only_agari("1s2s3s4s5s6s7m8m9m2p2p西西 ロン西");
    assert_eq!(check_ikki_tukan(&two_suits), None);
}

#[test]
fn concealed_triplets_and_the_claimed_one() {
    let drawn = only_agari("2m2m2m5s5s5s8p8p8p東東東西 ツモ西");
    assert_eq!(check_sananke_sianke(&drawn), Some(Form::Sianke(true)));
    assert_eq!(check_duiduihe(&drawn), Some(Form::Duiduihe));
    // claimed for the pair: all four triplets stay concealed
    let claimed_pair = only_agari("2m2m2m5s5s5s8p8p8p東東東西 ロン西");
    assert_eq!(check_sananke_sianke(&claimed_pair), Some(Form::Sianke(true)));
    // claimed for a triplet: it counts as open
    let claimed = only_agari("2m2m2m5s5s5s8p8p8p東東西西 ロン東");
    assert_eq!(check_sananke_sianke(&claimed), Some(Form::Sananke));
    let wait_on_two = only_agari("2m2m2m5s5s5s8p8p8p東東西西 ツモ東");
    assert_eq!(check_sananke_sianke(&wait_on_two), Some(Form::Sianke(false)));
}

#[test]
fn terminals_in_every_group() {
    let lesser = only_agari("1p2p3p7s8s9s1m2m3m東東東9p ツモ9p");
    assert_eq!(
        check_hunquandaiyaojiu_chunquandaiyaojiu(&lesser),
        Some(Form::Hunquandaiyaojiu(true))
    );
    let greater = only_agari("1p2p3p7s8s9s1m2m3m9m9m9m9p ツモ9p");
    assert_eq!(
        check_hunquandaiyaojiu_chunquandaiyaojiu(&greater),
        Some(Form::Chunquandaiyaojiu(true))
    );
    let open = only_agari("1p2p3p7s8s9s9m9m9m9p ツモ9p チー1m2m3m");
    assert_eq!(
        check_hunquandaiyaojiu_chunquandaiyaojiu(&open),
        Some(Form::Chunquandaiyaojiu(false))
    );
    let simple_group = only_agari("1p2p3p4s5s6s1m2m3m9m9m9m9p ツモ9p");
    assert_eq!(check_hunquandaiyaojiu_chunquandaiyaojiu(&simple_group), None);
    let simple_pair = only_agari("1p2p3p7s8s9s1m2m3m9m9m9m5p ツモ5p");
    assert_eq!(check_hunquandaiyaojiu_chunquandaiyaojiu(&simple_pair), None);
}

#[test]
fn quads_dragons_and_winds() {
    let three = only_agari("2p3p4p東 ツモ東 暗槓1p1p1p1p 明槓9s9s9s9s 明槓中中中中");
    assert_eq!(check_sangangzi_sigangzi(&three), Some(Form::Sangangzi));
    let four = only_agari("東 ツモ東 暗槓1p1p1p1p 明槓9s9s9s9s 明槓中中中中 暗槓2m2m2m2m");
    assert_eq!(check_sangangzi_sigangzi(&four), Some(Form::Sigangzi));
    assert_eq!(check_duiduihe(&four), Some(Form::Duiduihe));
    let two = only_agari("2p3p4p5p6p7p東 ツモ東 暗槓1p1p1p1p 明槓9s9s9s9s");
    assert_eq!(check_sangangzi_sigangzi(&two), None);

    let small = only_agari("白白白發發發中中2p3p4p9s9s ロン9s");
    assert_eq!(check_shousanyuan(&small), Some(Form::Shousangen));
    assert_eq!(check_daisanyuan(&small), None);
    let great = only_agari("白白白發發發中中2p3p4p9s9s ロン中");
    assert_eq!(check_daisanyuan(&great), Some(Form::Daisangen));
    assert_eq!(check_shousanyuan(&great), None);
    let one = only_agari("白白白5s6s7s中中2p3p4p9s9s ロン9s");
    assert_eq!(check_shousanyuan(&one), None);

    let great = only_agari("東東東南南南西西西北北北9s ツモ9s");
    assert_eq!(check_shousushi_daisushi(&great), Some(Form::Daisushi));
    let little = only_agari("東東東南南南西西西北北9s9s ツモ9s");
    assert_eq!(check_shousushi_daisushi(&little), Some(Form::Shousushi));
    let neither = only_agari("東東東南南南西西西9s9s2p3p ツモ4p");
    assert_eq!(check_shousushi_daisushi(&neither), None);
}
