use agari::agaritilesets::MachiKind;
use agari::context::{Context, Direction, Lizhi};
use agari::form::Form;
use agari::judge::{judge, Judge};
use agari::tilesets::Tilesets;

fn parse(from: &str) -> Tilesets {
    let tilesets = from.split_whitespace().map(|tileset| tileset.parse().unwrap()).collect();

    Tilesets::new(Context::default(), tilesets).unwrap()
}

fn with_direction(tilesets: Tilesets, player: Direction, place: Direction) -> Tilesets {
    Tilesets { context: Context { player, place, ..Context::default() }, ..tilesets }
}

#[test]
fn judge_simple() {
    let tilesets = parse("1p1p1p2p2p2p3p3p3p4p4p4p5p ツモ5p");
    let res = judge(&tilesets).unwrap();
    assert_eq!(
        res.to_string(),
        "東場 東家 \n1p1p1p2p2p2p3p3p3p4p4p4p5p ツモ5p\n(1p1p1p 2p2p2p 3p3p3p 4p4p4p 5p5p 待ち: 単騎)\n13翻 四暗刻単騎\n48000点 役満"
    );
}

#[test]
fn judge_kokushimuso() {
    let tilesets = parse("1s9s1m9m1p9p東南西北白發中 ツモ中");
    let res = judge(&tilesets).unwrap();
    assert_eq!(
        res.to_string(),
        "東場 東家 \n1s9s1m9m1p9p東南西北白發中 ツモ中\n13翻 国士無双13面待ち\n48000点 役満"
    );
}

#[test]
fn judge_qiduizi() {
    let tilesets = parse("3s3s5s5s1p6p6p東東白白中中 ツモ1p");
    let res = judge(&tilesets).unwrap();
    assert_eq!(
        res.to_string(),
        "東場 東家 \n3s3s5s5s1p6p6p東東白白中中 ツモ1p\n1翻 門前清自摸和\n2翻25符 七対子\n3翻25符 4800点"
    );
}

#[test]
fn judge_qiduizi_liangbeigou() {
    let tilesets = parse("1p1p2p2p3p3p4p4p5p5p6p6p7p ツモ7p");
    let res = judge(&tilesets).unwrap();
    assert_eq!(
        res.to_string(),
        "東場 東家 \n1p1p2p2p3p3p4p4p5p5p6p6p7p ツモ7p\n(1p2p3p 1p2p3p 5p6p7p 5p6p7p 4p4p 待ち: 両面)\n1翻 門前清自摸和\n1翻 平和\n3翻 二盃口\n6翻 清一色\n11翻 36000点 三倍満"
    );
}

#[test]
fn judge_peng() {
    let tilesets = parse("1p1p1p2p2p2p3p3p3p5p ツモ5P ポン4p4p4p");
    let res = judge(&tilesets).unwrap();
    assert_eq!(
        res.to_string(),
        "東場 東家 \n1p1p1p2p2p2p3p3p3p5p ポン4p4p4p ツモ5P\n(4p4p4p 1p1p1p 2p2p2p 3p3p3p 5p5P 待ち: 単騎)\n1翻 ドラ\n2翻 三暗刻\n2翻 対々和\n5翻 清一色\n10翻 24000点 倍満"
    );
}

#[test]
fn judge_xijia() {
    let tilesets = parse("5s6s7s4m5m6m4p4p4p5p6p西西 ロン西");
    let tilesets = with_direction(tilesets, Direction::West, Direction::East);

    let res = judge(&tilesets).unwrap();
    assert_eq!(
        res.to_string(),
        "東場 西家 \n5s6s7s4m5m6m4p4p4p5p6p西西 ロン西\n(西西西 5s6s7s 4m5m6m 4p5p6p 4p4p 待ち: シャンポン)\n1翻 役牌\n1翻40符 1300点"
    );
}

#[test]
fn judge_qingyise() {
    let tilesets = parse("1s2s3s4s5s6s6s7s8s8s9s西西 ロン7s ドラ1s中6s2p");
    let res = judge(&tilesets).unwrap();
    assert_eq!(
        res.to_string(),
        "東場 東家 \n1s2s3s4s5s6s6s7s8s8s9s西西 ロン7s\n(6s7s8s 1s2s3s 4s5s6s 7s8s9s 西西 待ち: カンチャン)\n2翻 一気通貫\n3翻 混一色\n3翻 ドラ\n8翻 24000点 倍満"
    );
}

#[test]
fn judge_40fu() {
    let tilesets = parse("1m2m3m7m7m4s5s6s8s8s西西西 ツモ7m");
    let res = judge(&tilesets).unwrap();
    assert_eq!(
        res.to_string(),
        "東場 東家 \n4s5s6s8s8s1m2m3m7m7m西西西 ツモ7m\n(7m7m7m 西西西 4s5s6s 1m2m3m 8s8s 待ち: シャンポン)\n1翻 門前清自摸和\n1翻40符 2000点"
    );
}

#[test]
fn judge_pinghe() {
    let tilesets = parse("1p1p2p3p4p4p5p6p6p7p7p8p9p ツモ5P ドラ9p9p東9m");
    let tilesets =
        Tilesets { context: Context { lizhi: Lizhi::Lizhi, ..Context::default() }, ..tilesets };
    let res = judge(&tilesets).unwrap();
    assert_eq!(
        res.to_string(),
        "東場 東家 \n1p1p2p3p4p4p5p6p6p7p7p8p9p ツモ5P\n(2p3p4p 4p5p6p 5P6p7p 7p8p9p 1p1p 待ち: カンチャン)\n1翻 立直\n1翻 門前清自摸和\n3翻 ドラ\n6翻 清一色\n11翻 36000点 三倍満"
    )
}

#[test]
fn judge_qinglaotou() {
    let tilesets = parse("1s1s1s9s9s9p9p ロン9p 暗槓1p1p1p1p ポン1m1m1m ドラ8s9p");
    let tilesets = with_direction(tilesets, Direction::West, Direction::East);
    let res = judge(&tilesets).unwrap();
    assert_eq!(
        res.to_string(),
        "東場 西家 \n1s1s1s9s9s9p9p ポン1m1m1m 暗槓1p1p1p1p ロン9p\n(1m1m1m 9p9p9p 1s1s1s 1p1p1p1p 9s9s 待ち: シャンポン)\n13翻 清老頭\n32000点 役満"
    );
}

#[test]
fn judge_luyise() {
    let tilesets = parse("2s2s2s2s3s4s4s6s6s6s8s8s8s ロン3s");
    let res = judge(&tilesets).unwrap();
    assert_eq!(
        res.to_string(),
        "東場 東家 \n2s2s2s2s3s4s4s6s6s6s8s8s8s ロン3s\n(6s6s6s 8s8s8s 2s3s4s 2s3s4s 2s2s 待ち: カンチャン)\n13翻 緑一色\n48000点 役満"
    );
}

#[test]
fn judge_hunlaotou() {
    let tilesets = parse("1m1m9m9m1s1s1s東東東 ロン9m ポン白白白");
    let res = judge(&tilesets).unwrap();
    assert_eq!(
        res.to_string(),
        "東場 東家 \n1s1s1s1m1m9m9m東東東 ポン白白白 ロン9m\n(白白白 9m9m9m 1s1s1s 東東東 1m1m 待ち: シャンポン)\n2翻 混老頭\n2翻 対々和\n3翻 役牌\n7翻 18000点 跳満"
    );
}

#[test]
fn judge_bianzhang() {
    let tilesets = parse("2s2s1p1p1p3m4m5m5s6s7s8s9s ツモ7s ドラ4m");
    let tilesets =
        Tilesets { context: Context { lizhi: Lizhi::Lizhi, ..Context::default() }, ..tilesets };

    let res = judge(&tilesets).unwrap();
    assert_eq!(
        res.to_string(),
        "東場 東家 \n2s2s5s6s7s8s9s3m4m5m1p1p1p ツモ7s\n(1p1p1p 5s6s7s 7s8s9s 3m4m5m 2s2s 待ち: 両面)\n1翻 立直\n1翻 門前清自摸和\n1翻 ドラ\n3翻30符 5800点"
    );
}

#[test]
fn judge_true_yiman() {
    let tilesets = parse("2m2m2m3m3m3m4m4m4m5m5m5m1m ツモ1m ドラ2m3m4m");
    let res = judge(&tilesets).unwrap();
    assert_eq!(
        res.to_string(),
        "東場 東家 \n1m2m2m2m3m3m3m4m4m4m5m5m5m ツモ1m\n(2m2m2m 3m3m3m 4m4m4m 5m5m5m 1m1m 待ち: 単騎)\n13翻 四暗刻単騎\n48000点 役満"
    );
}

#[test]
fn judge_pinghe_zipai() {
    let tilesets = parse("1p2p2p3p3p4p6p6p7p7p8p南南 ロン8p");
    let res = judge(&tilesets).unwrap();
    assert_eq!(
        res.to_string(),
        "東場 東家 \n1p2p2p3p3p4p6p6p7p7p8p南南 ロン8p\n(6p7p8p 1p2p3p 2p3p4p 6p7p8p 南南 待ち: 両面)\n1翻 一盃口\n3翻 混一色\n4翻30符 12000点 満貫"
    );
}

#[test]
fn judge_pinghe_zipai_ng() {
    let tilesets = parse("1p2p2p3p3p4p6p6p7p7p8p東東 ロン8p");
    let res = judge(&tilesets).unwrap();
    assert_eq!(
        res.to_string(),
        "東場 東家 \n1p2p2p3p3p4p6p6p7p7p8p東東 ロン8p\n(6p7p8p 1p2p3p 2p3p4p 6p7p8p 東東 待ち: 両面)\n1翻 一盃口\n3翻 混一色\n4翻40符 12000点 満貫"
    );
}

#[test]
fn judge_dora_only() {
    let tilesets = parse("2m3m4m2s2s4s5s6p7p8p ツモ6s チー3m1m2m ドラ2m");
    assert!(judge(&tilesets).is_none());
}

fn forms_of(j: &Judge) -> Vec<Form> {
    j.forms().clone()
}

#[test]
fn four_concealed_triplets_on_the_pair_is_the_only_pattern() {
    let res = judge(&parse("1p1p1p2p2p2p3p3p3p4p4p4p5p ツモ5p")).unwrap();
    assert_eq!(forms_of(&res), [Form::Sianke(true)]);
    let agari = res.agari().unwrap();
    assert_eq!(agari.quetou().to_string(), "5p5p");
    assert_eq!(agari.machi(), MachiKind::Danqi);
    let triplets: Vec<String> = agari.kezis_in_hand().iter().map(|t| t.to_string()).collect();
    assert_eq!(triplets, ["1p1p1p", "2p2p2p", "3p3p3p", "4p4p4p"]);
    assert_eq!(res.value(), 48000);
    assert_eq!(res.total().yiman, 1);
    // for a player who does not lead the round
    let child = with_direction(
        parse("1p1p1p2p2p2p3p3p3p4p4p4p5p ツモ5p"),
        Direction::South,
        Direction::East,
    );
    assert_eq!(judge(&child).unwrap().value(), 32000);
}

#[test]
fn thirteen_orphans_is_the_only_pattern() {
    let res = judge(&parse("1s9s1m9m1p9p東南西北白發中 ツモ中")).unwrap();
    assert_eq!(forms_of(&res), [Form::Kokushimuso(true)]);
    assert!(res.agari().is_none());
    assert_eq!(res.total().fu, 0);
}

#[test]
fn a_concealed_flush_of_runs_sums_its_patterns() {
    let res = judge(&parse("1p1p2p2p3p3p4p4p5p5p6p6p7p ツモ7p")).unwrap();
    assert_eq!(
        forms_of(&res),
        [Form::Menqianqingzimohu, Form::Pinghe, Form::Liangbeigou, Form::Qingyise(true)]
    );
    assert_eq!(res.total().fan, 11);
    assert_eq!(res.total().fu, 20);
    assert_eq!(res.total().yiman, 0);
    assert_eq!(res.agari().unwrap().machi(), MachiKind::Liangmian);
    assert_eq!(res.value(), 36000);
}

#[test]
fn judging_twice_gives_the_same() {
    for text in [
        "1p1p2p2p3p3p4p4p5p5p6p6p7p ツモ7p",
        "1m1m9m9m1s1s1s東東東 ロン9m ポン白白白",
        "2m3m4m2s2s4s5s6p7p8p ツモ6s チー3m1m2m ドラ2m",
    ] {
        let a = judge(&parse(text)).map(|j| j.to_string());
        let b = judge(&parse(text).clone()).map(|j| j.to_string());
        assert_eq!(a, b);
    }
}

#[test]
fn fu_is_a_multiple_of_ten() {
    let cases = [
        ("1m2m3m7m7m4s5s6s8s8s西西西 ツモ7m", 40),
        ("2s2s1p1p1p3m4m5m5s6s7s8s9s ツモ7s", 30),
        ("2p3p4p5s6s7s3m4m5m6m7m9p9p ツモ8m", 20),
        ("2p3p4p5s6s7s3m4m5m6m7m9p9p ロン8m", 30),
        ("2p3p4p東 ツモ東 暗槓1p1p1p1p 明槓9s9s9s9s 明槓中中中中", 90),
    ];
    for (text, fu) in cases {
        let res = judge(&parse(text)).unwrap();
        assert_eq!(res.total().fu, fu, "{}", text);
        assert_eq!(res.total().fu % 10, 0);
    }
}

#[test]
fn a_claimed_hand_of_runs_has_thirty_fu() {
    // 20 fu, nothing added: raised to 30 for a claimed tile
    let res = judge(&parse("2p3p4p5s6s7s6m7m8p8p ロン8m チー3m4m5m")).unwrap();
    assert_eq!(forms_of(&res), [Form::Duanyaojiu]);
    assert_eq!(res.total().fu, 30);
    assert_eq!(res.to_string().lines().last().unwrap(), "1翻30符 1500点");
}

#[test]
fn true_limits_add_up_and_drop_the_rest() {
    let res = judge(&parse("東東東南南南西西西北北北白 ツモ白")).unwrap();
    assert_eq!(forms_of(&res), [Form::Ziyise, Form::Sianke(true), Form::Daisushi]);
    assert_eq!(res.total().yiman, 3);
    assert_eq!(res.total().fan, 0);
    assert_eq!(res.value(), 144000);
    assert_eq!(res.to_string().lines().last().unwrap(), "144000点 トリプル役満");
}

#[test]
fn patterns_declared_beforehand_are_counted() {
    let ts = parse("1m2m3m7m7m4s5s6s8s8s西西西 ツモ7m");
    let ts = Tilesets {
        context: Context { lucky_forms: vec![Form::Haidimoyue], ..Context::default() },
        ..ts
    };
    let res = judge(&ts).unwrap();
    assert_eq!(forms_of(&res), [Form::Haidimoyue, Form::Menqianqingzimohu]);
    assert_eq!(res.total().fan, 2);
    let ts = parse("2m3m4m2s2s4s5s6p7p8p ツモ6s チー3m1m2m ドラ2m");
    let ts = Tilesets {
        context: Context { lucky_forms: vec![Form::Tianhe], ..Context::default() },
        ..ts
    };
    let res = judge(&ts).unwrap();
    assert_eq!(forms_of(&res), [Form::Tianhe]);
}

#[test]
fn an_incomplete_hand_has_no_judgment() {
    assert!(judge(&parse("1m2m4m7m7m4s5s6s8s8s西西西 ツモ7m")).is_none());
}

#[test]
fn normalising_patterns() {
    let mut forms = vec![Form::Qingyise(true), Form::Dora(2), Form::Lizhi, Form::Pinghe];
    Judge::fix_forms(&mut forms);
    assert_eq!(forms, [Form::Lizhi, Form::Pinghe, Form::Dora(2), Form::Qingyise(true)]);
    let mut forms = vec![Form::Qingyise(true), Form::Daisangen, Form::Dora(2), Form::Ziyise];
    Judge::fix_forms(&mut forms);
    assert_eq!(forms, [Form::Daisangen, Form::Ziyise]);
    let mut forms = vec![Form::Dora(2), Form::Dora(1)];
    Judge::fix_forms(&mut forms);
    assert_eq!(forms, []);
    let mut forms: Vec<Form> = Vec::new();
    Judge::fix_forms(&mut forms);
    assert_eq!(forms, []);
}

#[test]
fn the_first_run_that_ends_in_the_tile_decides_the_wait() {
    // 7s ends 5s6s7s, a two-sided wait, and begins 7s8s9s, which would
    // be an edge wait: the first of the two runs decides.
    let res = judge(&parse("2s2s1p1p1p3m4m5m5s6s7s8s9s ツモ7s")).unwrap();
    assert_eq!(res.agari().unwrap().machi(), MachiKind::Liangmian);
    assert_eq!(res.total().fu, 30);
}

#[test]
fn of_equal_payments_the_fewer_patterns_win() {
    // four concealed triplets, or thirteen fan and more counted together
    let res = judge(&parse("2m2m2m3m3m3m4m4m4m5m5m5m1m ツモ1m ドラ2m3m4m")).unwrap();
    assert_eq!(forms_of(&res), [Form::Sianke(true)]);
    // eleven fan in four patterns before twelve fan in five: both pay the same
    let ts = parse("1p1p2p3p4p4p5p6p6p7p7p8p9p ツモ5P ドラ9p9p東9m");
    let ts = Tilesets { context: Context { lizhi: Lizhi::Lizhi, ..Context::default() }, ..ts };
    let res = judge(&ts).unwrap();
    assert_eq!(res.total().fan, 11);
    assert_eq!(forms_of(&res).len(), 4);
    assert_eq!(res.agari().unwrap().machi(), MachiKind::Qianzhang);
    // nine fan in three patterns before ten fan in four: both pay 24000
    let res = judge(&parse("1s1s1s2s2s3s3s3s7s8s9s9s9s ツモ2s")).unwrap();
    assert_eq!(res.value(), 24000);
    assert_eq!(res.total().fan, 9);
    assert_eq!(forms_of(&res), [Form::Menqianqingzimohu, Form::Sananke, Form::Qingyise(true)]);
}

#[test]
fn a_true_limit_carries_no_fan() {
    let res = judge(&parse("1p1p1p2p2p2p3p3p3p4p4p4p5p ツモ5p")).unwrap();
    assert_eq!(res.total().fan, 0);
    assert_eq!(res.total().yiman, 1);
    assert_eq!(res.to_string().lines().nth(3).unwrap(), "13翻 四暗刻単騎");
}

#[test]
fn a_judgment_can_be_copied() {
    let res = judge(&parse("1m1m9m9m1s1s1s東東東 ロン9m ポン白白白")).unwrap();
    let copy = res.clone();
    assert_eq!(copy.to_string(), res.to_string());
    assert_eq!(copy.tilesets().to_string(), "1s1s1s1m1m9m9m東東東 ポン白白白 ロン9m");
    assert_eq!(copy.value(), 18000);
}

#[test]
fn no_judgment_pays_more_than_the_best() {
    // as seven pairs the hand has nine fan, taken apart it has eleven
    let ts = parse("1p1p2p2p3p3p4p4p5p5p6p6p7p ツモ7p");
    let best = judge(&ts).unwrap();
    assert_eq!(best.value(), 36000);
    assert!(best.agari().is_some());
}
