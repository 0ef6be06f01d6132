//! The judgment: every way to read a hand, scored, and the best of them.

use crate::agaritilesets::{AgariTilesets, AgariView, MachiKind, RongmingView};
use crate::form::{
    check_daisanyuan, check_duiduihe, check_fanpai, check_hunquandaiyaojiu_chunquandaiyaojiu,
    check_ikki_tukan, check_pinghe, check_sananke_sianke, check_sangangzi_sigangzi,
    check_sanshoku_dojun, check_sanshoku_doko, check_shousanyuan, check_shousushi_daisushi,
    check_yibeikou_liangbeigou, kezi_firsts, special_check_dora, special_check_duanyaojiu,
    special_check_hungyise_qingyise, special_check_hunlaotou, special_check_jiulianbaodeng,
    special_check_kokushimuso, special_check_lizhi, special_check_luyise,
    special_check_menqianqingzimohu, special_check_qiduizi, special_check_qinglaotou,
    special_check_ziyise, plain_worth, small_forms, total_fan, total_fu, total_yiman, worth,
    Form, Point,
};
use crate::sorting::{
    insert_position, lemma_insert_position, lemma_insert_position_unique, lemma_sort_by,
    lemma_sort_by_all, sort_by, sorted_by,
};
use crate::tile::Tile;
use crate::tiles::{tiles_text, Tiles};
use crate::tilesets::{views, Tilesets, TilesetsView};
use crate::utils::{ceil_at, lemma_ceil_at, spec_ceil_at};
use vstd::prelude::*;

verus! {

/// The sum of the fan of the patterns.
pub open spec fn forms_fan(s: Seq<Form>) -> int
    decreases s.len(),
{
    if s.len() == 0 {
        0
    } else {
        forms_fan(s.drop_last()) + s.last().spec_point().fan
    }
}

/// The sum of the fu of the patterns.
pub open spec fn forms_fu(s: Seq<Form>) -> int
    decreases s.len(),
{
    if s.len() == 0 {
        0
    } else {
        forms_fu(s.drop_last()) + s.last().spec_point().fu
    }
}

/// The sum of the limits of the patterns.
pub open spec fn forms_yiman(s: Seq<Form>) -> int
    decreases s.len(),
{
    if s.len() == 0 {
        0
    } else {
        forms_yiman(s.drop_last()) + s.last().spec_point().yiman
    }
}

/// The key by which patterns are sorted: fan first, then fu.
pub open spec fn form_key() -> spec_fn(Form) -> int {
    |f: Form| f.spec_point().key()
}

/// The patterns of `s` that are true limit hands, in order.
pub open spec fn only_limits(s: Seq<Form>) -> Seq<Form>
    decreases s.len(),
{
    if s.len() == 0 {
        s
    } else if s.last().spec_point().yiman > 0 {
        only_limits(s.drop_last()).push(s.last())
    } else {
        only_limits(s.drop_last())
    }
}

/// Whether some pattern is a true limit hand.
pub open spec fn has_limit(s: Seq<Form>) -> bool {
    exists|i: int| 0 <= i < s.len() && (#[trigger] s[i]).spec_point().yiman > 0
}

/// Whether every pattern is the bonus tiles.
pub open spec fn all_dora(s: Seq<Form>) -> bool {
    forall|i: int| 0 <= i < s.len() ==> (#[trigger] s[i]).spec_is_dora()
}

/// The patterns as they are scored: sorted by fan and fu, the order of
/// equals kept; with a true limit hand among them, the true limit hands
/// alone; and none at all where only bonus tiles are left.
pub open spec fn fix_forms(forms: Seq<Form>) -> Seq<Form> {
    let sorted = sort_by(forms, form_key());
    let kept = if has_limit(sorted) {
        only_limits(sorted)
    } else {
        sorted
    };
    if all_dora(kept) {
        Seq::empty()
    } else {
        kept
    }
}

/// `s` with the pattern added, if there is one.
pub open spec fn push_opt(s: Seq<Form>, f: Option<Form>) -> Seq<Form> {
    match f {
        Some(x) => s.push(x),
        None => s,
    }
}

/// The sums of a sequence of patterns are not negative.
pub proof fn lemma_forms_totals_nonneg(s: Seq<Form>)
    ensures
        forms_fan(s) >= 0,
        forms_fu(s) >= 0,
        forms_yiman(s) >= 0,
    decreases s.len(),
{
    if s.len() > 0 {
        lemma_forms_totals_nonneg(s.drop_last());
    }
}

/// Putting a pattern into a sequence adds its worth to the sums.
pub proof fn lemma_forms_totals_insert(s: Seq<Form>, p: int, f: Form)
    requires
        0 <= p <= s.len(),
    ensures
        forms_fan(s.insert(p, f)) == forms_fan(s) + f.spec_point().fan,
        forms_fu(s.insert(p, f)) == forms_fu(s) + f.spec_point().fu,
        forms_yiman(s.insert(p, f)) == forms_yiman(s) + f.spec_point().yiman,
    decreases s.len(),
{
    let r = s.insert(p, f);
    if p == s.len() {
        assert(r.drop_last() =~= s);
        assert(r.last() == f);
    } else {
        assert(r.drop_last() =~= s.drop_last().insert(p, f));
        assert(r.last() == s.last());
        lemma_forms_totals_insert(s.drop_last(), p, f);
    }
}

/// Sorting leaves the sums as they are.
pub proof fn lemma_forms_totals_sort(s: Seq<Form>)
    ensures
        forms_fan(sort_by(s, form_key())) == forms_fan(s),
        forms_fu(sort_by(s, form_key())) == forms_fu(s),
        forms_yiman(sort_by(s, form_key())) == forms_yiman(s),
    decreases s.len(),
{
    if s.len() > 0 {
        lemma_forms_totals_sort(s.drop_last());
        let q = sort_by(s.drop_last(), form_key());
        lemma_insert_position(q, s.last(), form_key());
        lemma_forms_totals_insert(q, insert_position(q, s.last(), form_key()), s.last());
    }
}

/// Keeping the true limit hands alone does not raise the sums.
pub proof fn lemma_forms_totals_limits(s: Seq<Form>)
    ensures
        forms_fan(only_limits(s)) <= forms_fan(s),
        forms_fu(only_limits(s)) <= forms_fu(s),
        forms_yiman(only_limits(s)) <= forms_yiman(s),
        only_limits(s).len() <= s.len(),
        forall|i: int|
            0 <= i < only_limits(s).len() ==> (#[trigger] only_limits(s)[i]).spec_point().yiman
                > 0,
    decreases s.len(),
{
    if s.len() > 0 {
        lemma_forms_totals_limits(s.drop_last());
        let d = only_limits(s.drop_last());
        if s.last().spec_point().yiman > 0 {
            assert(d.push(s.last()).drop_last() =~= d);
        }
    }
}

/// The patterns as they are scored are worth no more than the patterns as given.
pub proof fn lemma_fix_forms_totals(s: Seq<Form>)
    ensures
        0 <= forms_fan(fix_forms(s)) <= forms_fan(s),
        0 <= forms_fu(fix_forms(s)) <= forms_fu(s),
        0 <= forms_yiman(fix_forms(s)) <= forms_yiman(s),
{
    lemma_forms_totals_sort(s);
    lemma_forms_totals_limits(sort_by(s, form_key()));
    lemma_forms_totals_nonneg(s);
    lemma_forms_totals_nonneg(fix_forms(s));
}

/// The true limit hands of a sorted sequence are sorted, and each is a
/// true limit hand of the sequence.
pub proof fn lemma_only_limits_sorted(s: Seq<Form>)
    requires
        sorted_by(s, form_key()),
    ensures
        sorted_by(only_limits(s), form_key()),
        forall|i: int|
            0 <= i < only_limits(s).len() ==> exists|j: int|
                0 <= j < s.len() && s[j] == #[trigger] only_limits(s)[i],
    decreases s.len(),
{
    if s.len() > 0 {
        let d = s.drop_last();
        assert forall|a: int, b: int| 0 <= a < b < d.len() implies form_key()(d[a]) <= form_key()(
            d[b],
        ) by {
            assert(d[a] == s[a] && d[b] == s[b]);
        }
        lemma_only_limits_sorted(d);
        let od = only_limits(d);
        let o = only_limits(s);
        assert forall|i: int| 0 <= i < o.len() implies exists|j: int|
            0 <= j < s.len() && s[j] == #[trigger] o[i] by {
            if i < od.len() {
                let j = choose|j: int| 0 <= j < d.len() && d[j] == od[i];
                assert(s[j] == o[i]);
            } else {
                assert(s[s.len() - 1] == o[i]);
            }
        }
        assert forall|a: int, b: int| 0 <= a < b < o.len() implies form_key()(o[a]) <= form_key()(
            o[b],
        ) by {
            if b < od.len() {
                assert(o[a] == od[a] && o[b] == od[b]);
            } else {
                let j = choose|j: int| 0 <= j < d.len() && d[j] == od[a];
                assert(s[j] == o[a]);
                assert(o[b] == s[s.len() - 1]);
            }
        }
    }
}

/// The patterns as they are scored come in rising order of fan and fu;
/// with a true limit hand among them they are all true limit hands; and
/// they are never bonus tiles alone.
pub proof fn lemma_fix_forms_shape(forms: Seq<Form>)
    ensures
        sorted_by(fix_forms(forms), form_key()),
        has_limit(fix_forms(forms)) ==> forall|i: int|
            0 <= i < fix_forms(forms).len() ==> (#[trigger] fix_forms(forms)[i]).spec_point().yiman
                > 0,
        fix_forms(forms).len() > 0 ==> !all_dora(fix_forms(forms)),
        fix_forms(forms).len() <= forms.len(),
{
    let sorted = sort_by(forms, form_key());
    lemma_sort_by(forms, form_key());
    lemma_only_limits_sorted(sorted);
    lemma_forms_totals_limits(sorted);
    if !has_limit(sorted) {
        if has_limit(fix_forms(forms)) {
            let i = choose|i: int|
                0 <= i < fix_forms(forms).len() && (#[trigger] fix_forms(
                    forms,
                )[i]).spec_point().yiman > 0;
            assert(sorted[i].spec_point().yiman > 0);
        }
    }
}

/// The number by which a pattern is sorted.
fn sort_key(f: Form) -> (r: u64)
    ensures
        r == form_key()(f),
{
    let p = f.point();
    let fan: u64 = p.fan as u64;
    let fu: u64 = p.fu as u64;
    fan * 0x1_0000_0000 + fu
}

/// Sorts patterns by fan and fu, keeping the order of equals.
pub fn sort_forms(v: &Vec<Form>) -> (r: Vec<Form>)
    ensures
        r@ == sort_by(v@, form_key()),
{
    let mut out: Vec<Form> = Vec::new();
    let mut i: usize = 0;
    while i < v.len()
        invariant
            i <= v.len(),
            out@ == sort_by(v@.take(i as int), form_key()),
            out@.len() == i,
        decreases v.len() - i,
    {
        let f = v[i];
        let k: u64 = sort_key(f);
        let mut p: usize = out.len();
        while p > 0 && sort_key(out[p - 1]) > k
            invariant
                p <= out.len(),
                forall|j: int| p <= j < out@.len() ==> form_key()(out@[j]) > form_key()(f),
                k == form_key()(f),
            decreases p,
        {
            p -= 1;
        }
        proof {
            lemma_insert_position_unique(out@, f, form_key(), p as int);
            assert(v@.take(i + 1).drop_last() =~= v@.take(i as int));
            assert(v@.take(i + 1).last() == f);
        }
        out.insert(p, f);
        i += 1;
    }
    proof {
        assert(v@.take(v.len() as int) =~= v@);
    }
    out
}

/// The true limit hands among the patterns, in order.
fn keep_limits(v: &Vec<Form>) -> (r: Vec<Form>)
    ensures
        r@ == only_limits(v@),
{
    let mut out: Vec<Form> = Vec::new();
    let mut i: usize = 0;
    while i < v.len()
        invariant
            i <= v.len(),
            out@ == only_limits(v@.take(i as int)),
        decreases v.len() - i,
    {
        proof {
            assert(v@.take(i + 1).drop_last() =~= v@.take(i as int));
        }
        if v[i].point().is_true_yiman() {
            out.push(v[i]);
        }
        i += 1;
    }
    proof {
        assert(v@.take(v.len() as int) =~= v@);
    }
    out
}

/// Whether some pattern is a true limit hand.
fn any_limit(v: &Vec<Form>) -> (r: bool)
    ensures
        r == has_limit(v@),
{
    let mut i: usize = 0;
    while i < v.len()
        invariant
            i <= v.len(),
            forall|j: int| 0 <= j < i ==> !((#[trigger] v@[j]).spec_point().yiman > 0),
        decreases v.len() - i,
    {
        if v[i].point().is_true_yiman() {
            return true;
        }
        i += 1;
    }
    false
}

/// Whether every pattern is the bonus tiles.
fn only_dora(v: &Vec<Form>) -> (r: bool)
    ensures
        r == all_dora(v@),
{
    let mut i: usize = 0;
    while i < v.len()
        invariant
            i <= v.len(),
            forall|j: int| 0 <= j < i ==> (#[trigger] v@[j]).spec_is_dora(),
        decreases v.len() - i,
    {
        if !v[i].is_dora() {
            return false;
        }
        i += 1;
    }
    true
}

/// The sum of the worth of the patterns.
fn total_of(forms: &Vec<Form>) -> (r: Point)
    requires
        forms_fan(forms@) <= u32::MAX,
        forms_fu(forms@) <= u32::MAX,
        forms_yiman(forms@) <= u32::MAX,
    ensures
        r.fan == forms_fan(forms@),
        r.fu == forms_fu(forms@),
        r.yiman == forms_yiman(forms@),
{
    let mut points: Vec<Point> = Vec::new();
    let mut i: usize = 0;
    while i < forms.len()
        invariant
            i <= forms@.len(),
            total_fan(points@) == forms_fan(forms@.take(i as int)),
            total_fu(points@) == forms_fu(forms@.take(i as int)),
            total_yiman(points@) == forms_yiman(forms@.take(i as int)),
        decreases forms@.len() - i,
    {
        let ghost before = points@;
        points.push(forms[i].point());
        i += 1;
        proof {
            assert(points@.drop_last() =~= before);
            assert(forms@.take(i as int).drop_last() =~= forms@.take(i - 1));
        }
    }
    proof {
        assert(forms@.take(forms@.len() as int) =~= forms@);
    }
    Point::sum(&points)
}

/// The fu of triplets or quads: `base` for each of simple tiles, twice
/// `base` for each of terminals or honors.
pub open spec fn group_fu(gs: Seq<Seq<Tile>>, base: int) -> int
    decreases gs.len(),
{
    if gs.len() == 0 {
        0
    } else {
        group_fu(gs.drop_last(), base) + if gs.last()[0].spec_is_zhongzhang() {
            base
        } else {
            2 * base
        }
    }
}

/// The fu of groups lies between nothing and twice `base` for each.
pub proof fn lemma_group_fu(gs: Seq<Seq<Tile>>, base: int)
    requires
        base >= 0,
    ensures
        0 <= group_fu(gs, base) <= 2 * base * gs.len(),
    decreases gs.len(),
{
    if gs.len() > 0 {
        lemma_group_fu(gs.drop_last(), base);
        assert(2 * base * gs.len() == 2 * base * (gs.len() - 1) + 2 * base) by (nonlinear_arith);
    } else {
        assert(2 * base * 0 == 0);
    }
}

impl AgariView {
    /// Whether the hand is all runs and self-drawn: it holds the pattern for it.
    pub open spec fn is_pinghe_zimo(self, forms: Seq<Form>) -> bool {
        self.tilesets.is_zimo && exists|i: int|
            0 <= i < forms.len() && #[trigger] forms[i] == Form::Pinghe
    }

    /// The fu for the way of winning: 2 for a self-drawn tile, 10 for a
    /// claimed tile with a concealed hand.
    pub open spec fn agari_fu(self) -> int {
        if self.tilesets.is_zimo {
            2
        } else if self.tilesets.is_menqian() {
            10
        } else {
            0
        }
    }

    /// The open triplets that are no quads: the claimed ones and the one
    /// that a claimed winning tile opened.
    pub open spec fn open_triplets(self) -> Seq<Seq<Tile>> {
        self.tilesets.pengs + self.rongming.mingkes()
    }

    /// The fu of the triplets and quads: 2 for an open triplet, 4 for a
    /// concealed one, 8 for an open quad, 16 for a concealed one, each
    /// doubled for terminals and honors.
    pub open spec fn kezi_fu(self) -> int {
        group_fu(self.open_triplets(), 2) + group_fu(self.kezis_in_hand, 4) + group_fu(
            self.tilesets.minggangs,
            8,
        ) + group_fu(self.tilesets.angangs, 16)
    }

    /// The fu of the pair: as many as the times that its tile is a value tile.
    pub open spec fn quetou_fu(self) -> int {
        self.quetou[0].spec_num_fan(self.tilesets.context.place, self.tilesets.context.player)
    }

    /// The fu of the wait: none for a two-sided wait and for a wait on two pairs, 2 otherwise.
    pub open spec fn machi_fu(self) -> int {
        if self.machi == MachiKind::Liangmian || self.machi == MachiKind::Shuangpeng {
            0
        } else {
            2
        }
    }

    /// The fu before rounding: 20 and the fu of the way of winning, of the
    /// triplets and quads, of the pair and of the wait.
    pub open spec fn base_fu(self) -> int {
        20 + self.agari_fu() + self.kezi_fu() + self.quetou_fu() + self.machi_fu()
    }

    /// The fu of the hand with the patterns `forms`: 20 for a self-drawn
    /// hand of all runs; otherwise the fu before rounding, rounded up to
    /// tens, and 30 where that is 20 and the tile was claimed.
    pub open spec fn fu(self, forms: Seq<Form>) -> int {
        if self.is_pinghe_zimo(forms) {
            20
        } else {
            let ceiled = spec_ceil_at(self.base_fu(), 10);
            if !self.tilesets.is_zimo && ceiled == 20 {
                30
            } else {
                ceiled
            }
        }
    }

    /// The patterns of the hand: those of the table state, then those of
    /// the way the hand is taken apart.
    pub open spec fn forms(self) -> Seq<Form> {
        push_opt(
            push_opt(
                push_opt(
                    push_opt(
                        push_opt(
                            push_opt(
                                push_opt(
                                    push_opt(
                                        push_opt(
                                            push_opt(
                                                push_opt(
                                                    push_opt(
                                                        push_opt(
                                                            self.tilesets.forms_for_all_base(),
                                                            self.fanpai(),
                                                        ),
                                                        self.pinghe(),
                                                    ),
                                                    self.yibeikou_liangbeigou(),
                                                ),
                                                self.sanshoku_dojun(),
                                            ),
                                            self.sanshoku_doko(),
                                        ),
                                        self.sananke_sianke(),
                                    ),
                                    self.ikki_tukan(),
                                ),
                                self.duiduihe(),
                            ),
                            self.hunquandaiyaojiu_chunquandaiyaojiu(),
                        ),
                        self.sangangzi_sigangzi(),
                    ),
                    self.shousanyuan(),
                ),
                self.daisanyuan(),
            ),
            self.shousushi_daisushi(),
        )
    }

    /// The judgment of the hand, if it has a pattern to win on.
    pub open spec fn judge(self) -> Option<JudgeView> {
        JudgeView::from_agari(self, self.forms())
    }
}

/// The groups that carry fu are not empty, and there are at most four of each sort.
pub proof fn lemma_fu_groups(a: AgariView)
    requires
        a.wf(),
    ensures
        crate::agaritilesets::all_nonempty(a.open_triplets()),
        crate::agaritilesets::all_nonempty(a.kezis_in_hand),
        crate::agaritilesets::all_nonempty(a.tilesets.minggangs),
        crate::agaritilesets::all_nonempty(a.tilesets.angangs),
        a.open_triplets().len() + a.kezis_in_hand.len() + a.tilesets.minggangs.len()
            + a.tilesets.angangs.len() <= 4,
        a.quetou.len() == 2,
{
    let ts = a.tilesets;
    let ot = a.open_triplets();
    assert forall|i: int| 0 <= i < ot.len() implies (#[trigger] ot[i]).len() > 0 by {
        if i < ts.pengs.len() {
            assert(ot[i] == ts.pengs[i]);
            assert(crate::tiles::is_kezi(ts.pengs[i]));
        } else {
            assert(ot[i] == a.rongming.mingkes()[i - ts.pengs.len()]);
        }
    }
    assert forall|i: int| 0 <= i < a.kezis_in_hand.len() implies (
    #[trigger] a.kezis_in_hand[i]).len() > 0 by {
        assert(crate::tiles::is_kezi(a.kezis_in_hand[i]));
    }
    assert forall|i: int| 0 <= i < ts.minggangs.len() implies (#[trigger] ts.minggangs[i]).len()
        > 0 by {
        assert(crate::tiles::is_gangzi(ts.minggangs[i]));
    }
    assert forall|i: int| 0 <= i < ts.angangs.len() implies (#[trigger] ts.angangs[i]).len()
        > 0 by {
        assert(crate::tiles::is_gangzi(ts.angangs[i]));
    }
}

/// The fu of a hand is at least 20 and a multiple of 10, whatever the
/// patterns: 20 for a self-drawn hand of all runs, and at least 30 where
/// the tile was claimed.
pub proof fn lemma_fu_multiple_of_ten(a: AgariView, forms: Seq<Form>)
    requires
        a.wf(),
    ensures
        a.fu(forms) % 10 == 0,
        20 <= a.fu(forms) <= 170,
        a.is_pinghe_zimo(forms) ==> a.fu(forms) == 20,
        !a.tilesets.is_zimo ==> a.fu(forms) >= 30,
{
    lemma_fu_groups(a);
    lemma_group_fu(a.open_triplets(), 2);
    lemma_group_fu(a.kezis_in_hand, 4);
    lemma_group_fu(a.tilesets.minggangs, 8);
    lemma_group_fu(a.tilesets.angangs, 16);
    let n1 = a.open_triplets().len();
    let n2 = a.kezis_in_hand.len();
    let n3 = a.tilesets.minggangs.len();
    let n4 = a.tilesets.angangs.len();
    assert(a.kezi_fu() <= 32 * (n1 + n2 + n3 + n4)) by (nonlinear_arith)
        requires
            a.kezi_fu() <= 2 * 2 * n1 + 2 * 4 * n2 + 2 * 8 * n3 + 2 * 16 * n4,
    ;
    lemma_ceil_at(a.base_fu(), 10);
}

/// Recomputing the fu of the same hand with the same patterns gives the same fu.
pub proof fn lemma_fu_deterministic(a: AgariTilesets, b: AgariTilesets, f: Vec<Form>, g: Vec<Form>)
    requires
        a@ == b@,
        f@ == g@,
    ensures
        a@.fu(f@) == b@.fu(g@),
{
}

/// The fu of triplets or quads.
fn sum_group_fu(groups: &Vec<Tiles>, base: u32) -> (r: u32)
    requires
        crate::agaritilesets::all_nonempty(views(groups@)),
        groups@.len() <= 4,
        base <= 16,
    ensures
        r == group_fu(views(groups@), base as int),
        r <= 2 * base * groups@.len(),
{
    let mut res: u32 = 0;
    let mut i: usize = 0;
    proof {
        assert(2 * base * 0 == 0);
    }
    while i < groups.len()
        invariant
            crate::agaritilesets::all_nonempty(views(groups@)),
            groups@.len() <= 4,
            base <= 16,
            i <= groups@.len(),
            res == group_fu(views(groups@.take(i as int)), base as int),
            res <= 32 * i,
        decreases groups@.len() - i,
    {
        proof {
            assert(views(groups@)[i as int].len() > 0);
            let cur = views(groups@.take(i + 1));
            assert(cur.drop_last() =~= views(groups@.take(i as int)));
            assert(cur.last() == groups@[i as int]@);
        }
        let tile = groups[i].first();
        res += if tile.is_zhongzhang() {
            base
        } else {
            2 * base
        };
        i += 1;
    }
    proof {
        assert(groups@.take(groups@.len() as int) =~= groups@);
        lemma_group_fu(views(groups@), base as int);
    }
    res
}

/// The hand and the patterns from which the fu is reckoned.
pub struct FuCalculator<'a> {
    /// The hand taken apart.
    pub agari: &'a AgariTilesets,
    /// The patterns that the hand wins on.
    pub forms: &'a Vec<Form>,
}

impl<'a> FuCalculator<'a> {
    /// A calculator for the hand and the patterns.
    pub fn new(agari: &'a AgariTilesets, forms: &'a Vec<Form>) -> (r: FuCalculator<'a>)
        ensures
            r.agari == agari,
            r.forms == forms,
    {
        FuCalculator { agari, forms }
    }

    /// The fu of the hand: 20 for a self-drawn hand of all runs; otherwise
    /// 20 and the fu of the way of winning, of the triplets and quads, of
    /// the pair and of the wait, rounded up to tens, and 30 where that is
    /// 20 and the tile was claimed.
    pub fn calculate(&self) -> (r: u32)
        ensures
            r == self.agari@.fu(self.forms@),
            r % 10 == 0,
            20 <= r <= 170,
            self.agari@.is_pinghe_zimo(self.forms@) ==> r == 20,
            !self.agari@.tilesets.is_zimo ==> r >= 30,
    {
        proof {
            use_type_invariant(self.agari);
            lemma_fu_multiple_of_ten(self.agari@, self.forms@);
            lemma_fu_groups(self.agari@);
        }
        if self.is_pinghe_zimo() {
            return 20;
        }
        let fudi: u32 = 20;
        let agari_fu = self.calc_agari_fu();
        let kezi_fu = self.calc_kezi_fu();
        let quetou_fu = self.calc_quetou_fu();
        let machi_fu = self.calc_machi_fu();
        let base = fudi + agari_fu + kezi_fu + quetou_fu + machi_fu;
        let ceiled = ceil_at(base, 10);
        if !self.agari.is_zimo() && ceiled == 20 {
            return 30;
        }
        ceiled
    }

    fn is_pinghe_zimo(&self) -> (r: bool)
        ensures
            r == self.agari@.is_pinghe_zimo(self.forms@),
    {
        if !self.agari.is_zimo() {
            return false;
        }
        let mut i: usize = 0;
        while i < self.forms.len()
            invariant
                i <= self.forms@.len(),
                self.agari@.tilesets.is_zimo,
                forall|j: int| 0 <= j < i ==> #[trigger] self.forms@[j] != Form::Pinghe,
            decreases self.forms@.len() - i,
        {
            match self.forms[i] {
                Form::Pinghe => {
                    proof {
                        assert(self.forms@[i as int] == Form::Pinghe);
                    }
                    return true;
                },
                _ => {},
            }
            i += 1;
        }
        false
    }

    fn calc_agari_fu(&self) -> (r: u32)
        ensures
            r == self.agari@.agari_fu(),
    {
        if self.agari.is_zimo() {
            2
        } else if self.agari.is_menqian() {
            10
        } else {
            0
        }
    }

    fn calc_kezi_fu(&self) -> (r: u32)
        ensures
            r == self.agari@.kezi_fu(),
            r <= 128,
    {
        proof {
            use_type_invariant(self.agari);
            lemma_fu_groups(self.agari@);
        }
        let mut open = self.agari.pengs();
        let ronghe = self.agari.ronghe_mingke();
        crate::agaritilesets::append_groups(&mut open, &ronghe);
        let a = sum_group_fu(&open, 2);
        let b = sum_group_fu(&self.agari.kezis_in_hand(), 4);
        let c = sum_group_fu(&self.agari.minggangs(), 8);
        let d = sum_group_fu(&self.agari.angangs(), 16);
        proof {
            let n1 = open@.len();
            let n2 = self.agari@.kezis_in_hand.len();
            let n3 = self.agari@.tilesets.minggangs.len();
            let n4 = self.agari@.tilesets.angangs.len();
            assert(views(open@).len() == n1);
            assert(a + b + c + d <= 32 * (n1 + n2 + n3 + n4)) by (nonlinear_arith)
                requires
                    a <= 2 * 2 * n1,
                    b <= 2 * 4 * n2,
                    c <= 2 * 8 * n3,
                    d <= 2 * 16 * n4,
                    n1 >= 0,
                    n2 >= 0,
                    n3 >= 0,
                    n4 >= 0,
            ;
        }
        a + b + c + d
    }

    fn calc_quetou_fu(&self) -> (r: u32)
        ensures
            r == self.agari@.quetou_fu(),
            r <= 2,
    {
        proof {
            use_type_invariant(self.agari);
            lemma_fu_groups(self.agari@);
        }
        self.agari.quetou().first().num_fan(self.agari.context())
    }

    fn calc_machi_fu(&self) -> (r: u32)
        ensures
            r == self.agari@.machi_fu(),
    {
        match self.agari.machi() {
            MachiKind::Liangmian | MachiKind::Shuangpeng => 0,
            _ => 2,
        }
    }
}

/// The point that patterns are worth together, with the fu as given.
pub open spec fn point_of(forms: Seq<Form>, fu: int) -> Point {
    Point { fan: forms_fan(forms) as u32, fu: fu as u32, yiman: forms_yiman(forms) as u32 }
}

/// What a judgment holds, as plain values.
pub struct JudgeView {
    /// The patterns, as they are scored.
    pub forms: Seq<Form>,
    /// What they are worth together.
    pub total: Point,
    /// The hand taken apart; none for a hand judged as a whole.
    pub agari: Option<AgariView>,
    /// The table state.
    pub tilesets: TilesetsView,
}

/// The text of patterns, one to a line.
pub open spec fn forms_text(forms: Seq<Form>) -> Seq<char>
    decreases forms.len(),
{
    if forms.len() == 0 {
        Seq::empty()
    } else {
        forms_text(forms.drop_last()) + forms.last().text() + "\n"@
    }
}

impl JudgeView {
    /// The judgment of a hand judged as a whole, if a pattern is left to win on.
    pub open spec fn from_tilesets(ts: TilesetsView, forms: Seq<Form>) -> Option<JudgeView> {
        let fixed = fix_forms(forms);
        if fixed.len() == 0 {
            None
        } else {
            Some(
                JudgeView {
                    forms: fixed,
                    total: point_of(fixed, forms_fu(fixed)),
                    agari: None,
                    tilesets: ts,
                },
            )
        }
    }

    /// The judgment of a hand taken apart, if a pattern is left to win on.
    pub open spec fn from_agari(a: AgariView, forms: Seq<Form>) -> Option<JudgeView> {
        let fixed = fix_forms(forms);
        if fixed.len() == 0 {
            None
        } else {
            Some(
                JudgeView {
                    forms: fixed,
                    total: point_of(fixed, a.fu(fixed)),
                    agari: Some(a),
                    tilesets: a.tilesets,
                },
            )
        }
    }

    /// The payment.
    pub open spec fn value(self) -> int {
        self.total.spec_value(self.tilesets.context.is_parent())
    }

    /// Whether the judgment has a pattern, a payment that fits, and a hand
    /// that is what it is called.
    pub open spec fn wf(self) -> bool {
        &&& self.forms.len() > 0
        &&& self.value() <= u32::MAX
        &&& match self.agari {
            Some(a) => a.wf() && a.tilesets == self.tilesets,
            None => true,
        }
    }

    /// The numbers by which judgments are compared, the first that
    /// differs deciding: the payment; the number of patterns, where fewer
    /// is better; then the fan and the fu.
    pub open spec fn rank(self) -> (int, int, int, int) {
        (self.value(), -(self.forms.len() as int), self.total.fan as int, self.total.fu as int)
    }

    /// Whether `self`, coming after `other`, takes its place as the best:
    /// it is not worse by the numbers of `rank`.
    pub open spec fn beats(self, other: JudgeView) -> bool {
        let a = self.rank();
        let b = other.rank();
        if a.0 != b.0 {
            a.0 > b.0
        } else if a.1 != b.1 {
            a.1 > b.1
        } else if a.2 != b.2 {
            a.2 > b.2
        } else {
            a.3 >= b.3
        }
    }

    /// The judgment as text: the winds and the name, the table state, the
    /// hand taken apart, the patterns, the point.
    pub open spec fn text(self) -> Seq<char> {
        self.tilesets.context.place.text() + "場 "@ + self.tilesets.context.player.text() + "家 "@
            + self.tilesets.context.player_name + "\n"@ + self.tilesets.text() + "\n"@ + (
        match self.agari {
            Some(a) => "("@ + a.text() + ")\n"@,
            None => Seq::empty(),
        }) + forms_text(self.forms) + self.total.full_text(self.tilesets.context.is_parent())
    }
}

/// The judgment as a list of none or one.
pub open spec fn opt_seq(j: Option<JudgeView>) -> Seq<JudgeView> {
    match j {
        Some(x) => seq![x],
        None => Seq::empty(),
    }
}

/// The judgments of the first `n` hands, those without a pattern left out.
pub open spec fn agari_judges(agaris: Seq<AgariView>, n: int) -> Seq<JudgeView>
    decreases n,
{
    if n <= 0 {
        Seq::empty()
    } else {
        agari_judges(agaris, n - 1) + opt_seq(agaris[n - 1].judge())
    }
}

/// The best of the judgments: the one that pays most; among those that
/// pay the same, the one with the fewest patterns; among those, the one
/// with the most fan, then fu; among those, the last.
pub open spec fn best_of(js: Seq<JudgeView>) -> Option<JudgeView>
    decreases js.len(),
{
    if js.len() == 0 {
        None
    } else {
        match best_of(js.drop_last()) {
            None => Some(js.last()),
            Some(b) => if js.last().beats(b) {
                Some(js.last())
            } else {
                Some(b)
            },
        }
    }
}

/// There is a best judgment where there is a judgment; it is one of
/// them, none of them pays more, and none that pays as much has fewer patterns.
pub proof fn lemma_best_of(js: Seq<JudgeView>)
    ensures
        best_of(js) is None <==> js.len() == 0,
        best_of(js) matches Some(b) ==> {
            &&& exists|i: int| 0 <= i < js.len() && js[i] == b
            &&& forall|i: int| 0 <= i < js.len() ==> (#[trigger] js[i]).value() <= b.value()
            &&& forall|i: int|
                0 <= i < js.len() && (#[trigger] js[i]).value() == b.value() ==> b.forms.len()
                    <= js[i].forms.len()
        },
    decreases js.len(),
{
    if js.len() > 0 {
        let d = js.drop_last();
        lemma_best_of(d);
        let b = best_of(js)->0;
        match best_of(d) {
            None => {
                assert(js[js.len() - 1] == b);
            },
            Some(p) => {
                if js.last().beats(p) {
                    assert(js[js.len() - 1] == b);
                } else {
                    let i = choose|i: int| 0 <= i < d.len() && d[i] == p;
                    assert(js[i] == b);
                }
                assert forall|i: int| 0 <= i < js.len() implies (#[trigger] js[i]).value()
                    <= b.value() && (js[i].value() == b.value() ==> b.forms.len()
                    <= js[i].forms.len()) by {
                    if i < d.len() {
                        assert(d[i] == js[i]);
                    }
                }
            },
        }
    }
}

impl TilesetsView {
    /// The patterns that do not depend on how the hand is taken apart:
    /// those that were declared beforehand, then those of the ready hand,
    /// of the self-drawn concealed hand, and so on to the bonus tiles.
    pub open spec fn forms_for_all_base(self) -> Seq<Form> {
        push_opt(
            push_opt(
                push_opt(
                    push_opt(
                        push_opt(
                            push_opt(
                                push_opt(
                                    push_opt(
                                        self.context.lucky_forms + self.lizhi_forms(),
                                        self.menqianqingzimohu(),
                                    ),
                                    self.duanyaojiu(),
                                ),
                                self.ziyise(),
                            ),
                            self.luyise(),
                        ),
                        self.hungyise_qingyise(),
                    ),
                    self.qinglaotou(),
                ),
                self.hunlaotou(),
            ),
            self.dora(),
        )
    }

    /// The judgment of the hand as a whole under the pattern `form`, if there is one.
    pub open spec fn judge_with(self, form: Option<Form>) -> Option<JudgeView> {
        match form {
            None => None,
            Some(f) => JudgeView::from_tilesets(self, self.forms_for_all_base().push(f)),
        }
    }

    /// Every judgment of the hand: one for each way to take it apart, then
    /// those of seven pairs, thirteen orphans and nine gates.
    pub open spec fn judge_all(self) -> Seq<JudgeView> {
        agari_judges(AgariView::enumerate(self), AgariView::enumerate(self).len() as int)
            + opt_seq(self.judge_with(self.qiduizi())) + opt_seq(
            self.judge_with(self.kokushimuso()),
        ) + opt_seq(self.judge_with(self.jiulianbaodeng()))
    }

    /// The best judgment of the hand; none where the hand has no pattern to win on.
    pub open spec fn judge(self) -> Option<JudgeView> {
        best_of(self.judge_all())
    }

    /// A bound on the fan of the bonus tiles: each tile of the hand may be
    /// every bonus tile, and red.
    pub open spec fn dora_room(self) -> int {
        (self.tiles_without_doras().len() * (self.doras.len() + 1)) as int
    }

    /// Whether the score fits in 32 bits: the patterns that were declared
    /// beforehand and the bonus tiles leave room for 300 fan, 25 fu and 30
    /// limits more.
    pub open spec fn scorable(self) -> bool {
        &&& forms_fan(self.context.lucky_forms) + self.dora_room() + 300 <= u32::MAX
        &&& forms_fu(self.context.lucky_forms) + 25 <= u32::MAX
        &&& (forms_yiman(self.context.lucky_forms) + 30) * 48000 <= u32::MAX
    }
}

/// A hand taken apart leaves the room for the score that the table state left.
pub proof fn lemma_scorable(ts: TilesetsView, a: AgariView)
    requires
        ts.scorable(),
        a.conserves(ts),
    ensures
        a.tilesets.scorable(),
{
    let t1 = ts.tiles_without_doras();
    let t2 = a.tilesets.tiles_without_doras();
    assert(t2.len() <= t1.len());
    assert(t2.len() * (ts.doras.len() + 1) <= t1.len() * (ts.doras.len() + 1))
        by (nonlinear_arith)
        requires
            t2.len() <= t1.len(),
    ;
}

/// The sums of a sequence of patterns with one more at the end.
pub proof fn lemma_forms_totals_push(s: Seq<Form>, f: Form)
    ensures
        forms_fan(s.push(f)) == forms_fan(s) + f.spec_point().fan,
        forms_fu(s.push(f)) == forms_fu(s) + f.spec_point().fu,
        forms_yiman(s.push(f)) == forms_yiman(s) + f.spec_point().yiman,
{
    assert(s.push(f).drop_last() =~= s);
}

/// The sums of two sequences of patterns in a row.
pub proof fn lemma_forms_totals_add(a: Seq<Form>, b: Seq<Form>)
    ensures
        forms_fan(a + b) == forms_fan(a) + forms_fan(b),
        forms_fu(a + b) == forms_fu(a) + forms_fu(b),
        forms_yiman(a + b) == forms_yiman(a) + forms_yiman(b),
    decreases b.len(),
{
    if b.len() == 0 {
        assert(a + b =~= a);
    } else {
        lemma_forms_totals_add(a, b.drop_last());
        assert((a + b).drop_last() =~= a + b.drop_last());
    }
}

/// Adds the pattern to the list, if there is one.
pub fn push_form(forms: &mut Vec<Form>, f: Option<Form>)
    ensures
        final(forms)@ == push_opt(old(forms)@, f),
        forms_fan(final(forms)@) == forms_fan(old(forms)@) + worth(f).fan,
        forms_fu(final(forms)@) == forms_fu(old(forms)@) + worth(f).fu,
        forms_yiman(final(forms)@) == forms_yiman(old(forms)@) + worth(f).yiman,
{
    match f {
        Some(x) => {
            proof {
                lemma_forms_totals_push(forms@, x);
            }
            forms.push(x);
        },
        None => {},
    }
}

/// The patterns of the ready hand are worth at most three fan.
pub proof fn lemma_lizhi_worth(ts: TilesetsView)
    ensures
        forms_fan(ts.lizhi_forms()) <= 3,
        forms_fu(ts.lizhi_forms()) == 0,
        forms_yiman(ts.lizhi_forms()) == 0,
{
    reveal_with_fuel(forms_fan, 3);
    reveal_with_fuel(forms_fu, 3);
    reveal_with_fuel(forms_yiman, 3);
    let s = ts.lizhi_forms();
    if s.len() == 2 {
        assert(s.drop_last().len() == 1);
        assert(s.drop_last().drop_last().len() == 0);
    } else if s.len() == 1 {
        assert(s.drop_last().len() == 0);
    }
}

/// The patterns that do not depend on how the hand is taken apart.
pub fn forms_for_all_base(tilesets: &Tilesets) -> (r: Vec<Form>)
    ensures
        r@ == tilesets@.forms_for_all_base(),
        forms_fan(r@) <= forms_fan(tilesets@.context.lucky_forms) + tilesets@.dora_room() + 60,
        forms_fu(r@) == forms_fu(tilesets@.context.lucky_forms),
        forms_yiman(r@) <= forms_yiman(tilesets@.context.lucky_forms) + 3,
{
    let mut forms = tilesets.context.lucky_forms.clone();
    proof {
        assert(forms@ =~= tilesets@.context.lucky_forms);
    }
    let mut lizhi = special_check_lizhi(tilesets).into_vec();
    proof {
        lemma_forms_totals_add(forms@, lizhi@);
        lemma_lizhi_worth(tilesets@);
    }
    forms.append(&mut lizhi);
    push_form(&mut forms, special_check_menqianqingzimohu(tilesets));
    push_form(&mut forms, special_check_duanyaojiu(tilesets));
    push_form(&mut forms, special_check_ziyise(tilesets));
    push_form(&mut forms, special_check_luyise(tilesets));
    push_form(&mut forms, special_check_hungyise_qingyise(tilesets));
    push_form(&mut forms, special_check_qinglaotou(tilesets));
    push_form(&mut forms, special_check_hunlaotou(tilesets));
    push_form(&mut forms, special_check_dora(tilesets));
    forms
}

/// The table state of a judgment, or the hand taken apart.
#[derive(Debug)]
pub enum JudgeTilesets {
    /// A hand judged as a whole.
    Tilesets(Tilesets),
    /// A hand taken apart.
    AgariTilesets(AgariTilesets),
}

impl JudgeTilesets {
    /// The hand taken apart, if there is one.
    pub open spec fn agari(self) -> Option<AgariView> {
        match self {
            JudgeTilesets::Tilesets(_) => None,
            JudgeTilesets::AgariTilesets(a) => Some(a@),
        }
    }

    /// The table state.
    pub open spec fn tilesets(self) -> TilesetsView {
        match self {
            JudgeTilesets::Tilesets(t) => t@,
            JudgeTilesets::AgariTilesets(a) => a@.tilesets,
        }
    }
}

/// A judgment: the patterns that a hand wins on and what they are worth.
/// A judgment always has a pattern.
#[derive(Debug)]
pub struct Judge {
    pub(crate) forms: Vec<Form>,
    pub(crate) total: Point,
    pub(crate) tilesets: JudgeTilesets,
}

impl View for Judge {
    type V = JudgeView;

    closed spec fn view(&self) -> JudgeView {
        JudgeView {
            forms: self.forms@,
            total: self.total,
            agari: self.tilesets.agari(),
            tilesets: self.tilesets.tilesets(),
        }
    }
}

/// The judgments of `s` as plain values.
pub open spec fn judge_views(s: Seq<Judge>) -> Seq<JudgeView> {
    s.map_values(|j: Judge| j@)
}

impl Judge {
    #[verifier::type_invariant]
    closed spec fn well_formed(self) -> bool {
        self@.wf()
    }

    /// A judgment, unless there is no pattern.
    fn new(forms: Vec<Form>, total: Point, tilesets: JudgeTilesets) -> (r: Option<Judge>)
        requires
            total.spec_value(tilesets.tilesets().context.is_parent()) <= u32::MAX,
            tilesets.agari() matches Some(a) ==> a.wf(),
        ensures
            match r {
                Some(j) => forms@.len() > 0 && j@ == (JudgeView {
                    forms: forms@,
                    total,
                    agari: tilesets.agari(),
                    tilesets: tilesets.tilesets(),
                }),
                None => forms@.len() == 0,
            },
    {
        if forms.len() == 0 {
            None
        } else {
            Some(Judge { forms, total, tilesets })
        }
    }

    /// Puts the patterns in the form in which they are scored: sorted by
    /// fan; with a true limit hand among them, the true limit hands alone;
    /// and none at all where only bonus tiles are left.
    pub fn fix_forms(forms: &mut Vec<Form>)
        ensures
            final(forms)@ == fix_forms(old(forms)@),
            sorted_by(final(forms)@, form_key()),
            final(forms)@.len() > 0 ==> !all_dora(final(forms)@),
    {
        proof {
            lemma_fix_forms_shape(forms@);
        }
        let sorted = sort_forms(forms);
        let kept = if any_limit(&sorted) {
            keep_limits(&sorted)
        } else {
            sorted
        };
        if only_dora(&kept) {
            *forms = Vec::new();
        } else {
            *forms = kept;
        }
    }

    /// The judgment of a hand judged as a whole.
    fn from_tilesets(tilesets: Tilesets, forms: Vec<Form>) -> (r: Option<Judge>)
        requires
            forms_fan(forms@) <= u32::MAX,
            forms_fu(forms@) <= u32::MAX,
            forms_yiman(forms@) * 48000 <= u32::MAX,
        ensures
            match r {
                Some(j) => JudgeView::from_tilesets(tilesets@, forms@) == Some(j@),
                None => JudgeView::from_tilesets(tilesets@, forms@) is None,
            },
    {
        let mut forms = forms;
        proof {
            lemma_fix_forms_totals(forms@);
        }
        Judge::fix_forms(&mut forms);
        let total = total_of(&forms);
        proof {
            crate::form::Point::lemma_few_value(
                if total.fan <= 4 {
                    total.fan as int
                } else {
                    0
                },
                total.fu as int,
                tilesets@.context.is_parent(),
            );
        }
        Judge::new(forms, total, JudgeTilesets::Tilesets(tilesets))
    }

    /// The judgment of a hand taken apart; the fu is reckoned here.
    fn from_agaritilesets(agari: AgariTilesets, forms: Vec<Form>) -> (r: Option<Judge>)
        requires
            forms_fan(forms@) <= u32::MAX,
            forms_fu(forms@) <= u32::MAX,
            forms_yiman(forms@) * 48000 <= u32::MAX,
        ensures
            match r {
                Some(j) => JudgeView::from_agari(agari@, forms@) == Some(j@),
                None => JudgeView::from_agari(agari@, forms@) is None,
            },
    {
        let mut forms = forms;
        proof {
            lemma_fix_forms_totals(forms@);
        }
        Judge::fix_forms(&mut forms);
        let mut total = total_of(&forms);
        total.fu = FuCalculator::new(&agari, &forms).calculate();
        proof {
            use_type_invariant(&agari);
            crate::form::Point::lemma_few_value(
                if total.fan <= 4 {
                    total.fan as int
                } else {
                    0
                },
                total.fu as int,
                agari@.tilesets.context.is_parent(),
            );
        }
        Judge::new(forms, total, JudgeTilesets::AgariTilesets(agari))
    }

    /// The table state; for a hand taken apart, that of the hand.
    pub fn tilesets(&self) -> (r: &Tilesets)
        ensures
            r@ == self@.tilesets,
    {
        match &self.tilesets {
            JudgeTilesets::Tilesets(tilesets) => tilesets,
            JudgeTilesets::AgariTilesets(agari) => agari.tilesets(),
        }
    }

    /// The patterns, as they are scored.
    pub fn forms(&self) -> (r: &Vec<Form>)
        ensures
            r@ == self@.forms,
            self@.wf(),
    {
        proof {
            use_type_invariant(self);
        }
        &self.forms
    }

    /// What the patterns are worth together.
    pub fn total(&self) -> (r: Point)
        ensures
            r == self@.total,
    {
        self.total
    }

    /// The hand taken apart; none for a hand judged as a whole.
    pub fn agari(&self) -> (r: Option<&AgariTilesets>)
        ensures
            match r {
                Some(a) => self@.agari == Some(a@),
                None => self@.agari is None,
            },
    {
        match &self.tilesets {
            JudgeTilesets::Tilesets(_) => None,
            JudgeTilesets::AgariTilesets(agari) => Some(agari),
        }
    }

    /// The payment.
    pub fn value(&self) -> (r: u32)
        ensures
            r == self@.value(),
    {
        proof {
            use_type_invariant(self);
        }
        let parent = self.tilesets().context.is_parent();
        self.total.value(parent)
    }

    /// Whether this judgment, coming after `other`, takes its place as the best.
    pub fn beats(&self, other: &Judge) -> (r: bool)
        ensures
            r == self@.beats(other@),
    {
        let a = self.value();
        let b = other.value();
        if a != b {
            a > b
        } else if self.forms.len() != other.forms.len() {
            self.forms.len() < other.forms.len()
        } else if self.total.fan != other.total.fan {
            self.total.fan > other.total.fan
        } else {
            self.total.fu >= other.total.fu
        }
    }

    /// The judgment as text: the winds and the name, the table state, the
    /// hand taken apart, the patterns, the point.
    pub fn to_string(&self) -> (r: String)
        ensures
            r@ == self@.text(),
    {
        proof {
            use_type_invariant(self);
        }
        let tilesets = self.tilesets();
        let mut out = tilesets.context.place.to_string();
        out.append("場 ");
        let player = tilesets.context.player.to_string();
        out.append(player.as_str());
        out.append("家 ");
        out.append(tilesets.context.player_name.as_str());
        out.append("\n");
        let t = tilesets.to_string();
        out.append(t.as_str());
        out.append("\n");
        match &self.tilesets {
            JudgeTilesets::AgariTilesets(agari) => {
                out.append("(");
                let a = agari.to_string();
                out.append(a.as_str());
                out.append(")\n");
            },
            JudgeTilesets::Tilesets(_) => {},
        }
        let ghost head = out@;
        let mut i: usize = 0;
        while i < self.forms.len()
            invariant
                i <= self.forms@.len(),
                out@ == head + forms_text(self.forms@.take(i as int)),
            decreases self.forms@.len() - i,
        {
            let f = self.forms[i].display().to_string();
            out.append(f.as_str());
            out.append("\n");
            i += 1;
            proof {
                assert(self.forms@.take(i as int).drop_last() =~= self.forms@.take(i - 1));
                assert(out@ =~= head + forms_text(self.forms@.take(i as int)));
            }
        }
        proof {
            assert(self.forms@.take(self.forms@.len() as int) =~= self.forms@);
        }
        let p = self.total.display_full(tilesets.context.is_parent()).to_string();
        out.append(p.as_str());
        proof {
            assert(out@ =~= self@.text());
        }
        out
    }
}

impl Clone for JudgeTilesets {
    fn clone(&self) -> (r: JudgeTilesets)
        ensures
            r.agari() == self.agari(),
            r.tilesets() == self.tilesets(),
    {
        match self {
            JudgeTilesets::Tilesets(t) => JudgeTilesets::Tilesets(t.clone()),
            JudgeTilesets::AgariTilesets(a) => JudgeTilesets::AgariTilesets(a.clone()),
        }
    }
}

impl Clone for Judge {
    fn clone(&self) -> (r: Judge)
        ensures
            r@ == self@,
    {
        proof {
            use_type_invariant(self);
        }
        let forms = self.forms.clone();
        proof {
            assert(forms@ =~= self.forms@);
        }
        Judge { forms, total: self.total, tilesets: self.tilesets.clone() }
    }
}

/// The judgment of a hand taken apart, if it has a pattern to win on.
fn judge_agari(agari: AgariTilesets) -> (r: Option<Judge>)
    requires
        agari@.tilesets.scorable(),
    ensures
        match r {
            Some(j) => agari@.judge() == Some(j@),
            None => agari@.judge() is None,
        },
{
    let mut forms = forms_for_all_base(agari.tilesets());
    push_form(&mut forms, check_fanpai(&agari));
    push_form(&mut forms, check_pinghe(&agari));
    push_form(&mut forms, check_yibeikou_liangbeigou(&agari));
    push_form(&mut forms, check_sanshoku_dojun(&agari));
    push_form(&mut forms, check_sanshoku_doko(&agari));
    push_form(&mut forms, check_sananke_sianke(&agari));
    push_form(&mut forms, check_ikki_tukan(&agari));
    push_form(&mut forms, check_duiduihe(&agari));
    push_form(&mut forms, check_hunquandaiyaojiu_chunquandaiyaojiu(&agari));
    push_form(&mut forms, check_sangangzi_sigangzi(&agari));
    push_form(&mut forms, check_shousanyuan(&agari));
    push_form(&mut forms, check_daisanyuan(&agari));
    push_form(&mut forms, check_shousushi_daisushi(&agari));
    Judge::from_agaritilesets(agari, forms)
}

/// The judgment of the hand as a whole under the pattern `form`, if there is one.
fn judge_with(tilesets: &Tilesets, form: Option<Form>) -> (r: Option<Judge>)
    requires
        tilesets@.scorable(),
        form matches Some(f) ==> f.spec_point().fan <= 13 && f.spec_point().fu <= 25
            && f.spec_point().yiman <= 1,
    ensures
        match r {
            Some(j) => tilesets@.judge_with(form) == Some(j@),
            None => tilesets@.judge_with(form) is None,
        },
{
    match form {
        None => None,
        Some(f) => {
            let mut forms = forms_for_all_base(tilesets);
            proof {
                lemma_forms_totals_push(forms@, f);
            }
            forms.push(f);
            Judge::from_tilesets(tilesets.clone(), forms)
        },
    }
}

/// The judgment of the hand as seven pairs.
fn judge_qiduizi(tilesets: &Tilesets) -> (r: Option<Judge>)
    requires
        tilesets@.scorable(),
    ensures
        match r {
            Some(j) => tilesets@.judge_with(tilesets@.qiduizi()) == Some(j@),
            None => tilesets@.judge_with(tilesets@.qiduizi()) is None,
        },
{
    judge_with(tilesets, special_check_qiduizi(tilesets))
}

/// The judgment of the hand as thirteen orphans.
fn judge_kokushimuso(tilesets: &Tilesets) -> (r: Option<Judge>)
    requires
        tilesets@.scorable(),
    ensures
        match r {
            Some(j) => tilesets@.judge_with(tilesets@.kokushimuso()) == Some(j@),
            None => tilesets@.judge_with(tilesets@.kokushimuso()) is None,
        },
{
    judge_with(tilesets, special_check_kokushimuso(tilesets))
}

/// The judgment of the hand as nine gates.
fn judge_jiulianbaodeng(tilesets: &Tilesets) -> (r: Option<Judge>)
    requires
        tilesets@.scorable(),
    ensures
        match r {
            Some(j) => tilesets@.judge_with(tilesets@.jiulianbaodeng()) == Some(j@),
            None => tilesets@.judge_with(tilesets@.jiulianbaodeng()) is None,
        },
{
    judge_with(tilesets, special_check_jiulianbaodeng(tilesets))
}

/// Adds the judgment to the list, if there is one.
fn push_judge(all: &mut Vec<Judge>, j: Option<Judge>)
    ensures
        judge_views(final(all)@) == judge_views(old(all)@) + opt_seq(
            match j {
                Some(x) => Some(x@),
                None => None,
            },
        ),
{
    let ghost before = judge_views(all@);
    match j {
        Some(x) => {
            all.push(x);
            proof {
                assert(judge_views(all@) =~= before + seq![x@]);
            }
        },
        None => {
            proof {
                assert(before + Seq::<JudgeView>::empty() =~= before);
            }
        },
    }
}

/// Every judgment of the hand: one for each way to take it apart, then
/// those of seven pairs, thirteen orphans and nine gates.
fn judge_all(tilesets: &Tilesets) -> (r: Vec<Judge>)
    requires
        tilesets@.wf(),
        tilesets@.scorable(),
    ensures
        judge_views(r@) == tilesets@.judge_all(),
{
    let agaris = AgariTilesets::enumerate(tilesets);
    let ghost specs = AgariView::enumerate(tilesets@);
    let mut all: Vec<Judge> = Vec::new();
    let mut i: usize = 0;
    proof {
        assert(judge_views(all@) =~= Seq::<JudgeView>::empty());
    }
    while i < agaris.len()
        invariant
            tilesets@.scorable(),
            specs == AgariView::enumerate(tilesets@),
            crate::agaritilesets::agari_views(agaris@) == specs,
            forall|k: int| 0 <= k < agaris@.len() ==> (#[trigger] agaris@[k])@.conserves(tilesets@),
            i <= agaris@.len(),
            judge_views(all@) == agari_judges(specs, i as int),
        decreases agaris@.len() - i,
    {
        let agari = agaris[i].clone();
        proof {
            assert(agaris@[i as int]@.conserves(tilesets@));
            lemma_scorable(tilesets@, agari@);
            assert(specs[i as int] == agaris@[i as int]@);
        }
        let j = judge_agari(agari);
        push_judge(&mut all, j);
        i += 1;
    }
    proof {
        assert(agaris@.len() == specs.len());
    }
    push_judge(&mut all, judge_qiduizi(tilesets));
    push_judge(&mut all, judge_kokushimuso(tilesets));
    push_judge(&mut all, judge_jiulianbaodeng(tilesets));
    all
}

/// Judges a hand: of every way to read it, the one that pays most; among
/// those that pay the same, the one with the fewest patterns. None where
/// the hand has no pattern to win on; bonus tiles alone are none.
pub fn judge(tilesets: &Tilesets) -> (r: Option<Judge>)
    requires
        tilesets@.wf(),
        tilesets@.scorable(),
    ensures
        match r {
            Some(j) => tilesets@.judge() == Some(j@) && j@.wf(),
            None => tilesets@.judge() is None,
        },
        r is None <==> tilesets@.judge_all().len() == 0,
        r matches Some(j) ==> {
            &&& exists|i: int|
                0 <= i < tilesets@.judge_all().len() && tilesets@.judge_all()[i] == j@
            &&& forall|i: int|
                0 <= i < tilesets@.judge_all().len() ==> (
                #[trigger] tilesets@.judge_all()[i]).value() <= j@.value()
            &&& forall|i: int|
                0 <= i < tilesets@.judge_all().len() && (
                #[trigger] tilesets@.judge_all()[i]).value() == j@.value() ==> j@.forms.len()
                    <= tilesets@.judge_all()[i].forms.len()
        },
{
    proof {
        lemma_best_of(tilesets@.judge_all());
    }
    let mut all = judge_all(tilesets);
    let n = all.len();
    if n == 0 {
        return None;
    }
    let ghost js = judge_views(all@);
    let mut best: usize = 0;
    let mut i: usize = 1;
    proof {
        assert(js.len() == n);
        assert(js.take(1).len() == 1);
        assert(js.take(1).drop_last() =~= Seq::<JudgeView>::empty());
        assert(js.take(1).last() == js[0]);
        assert(best_of(js.take(1).drop_last()) is None);
    }
    while i < n
        invariant
            n == all@.len(),
            js == judge_views(all@),
            best < i <= n,
            best_of(js.take(i as int)) == Some(js[best as int]),
        decreases n - i,
    {
        proof {
            assert(js.take(i + 1).drop_last() =~= js.take(i as int));
            assert(js.take(i + 1).last() == js[i as int]);
            assert(js[i as int] == all@[i as int]@);
            assert(js[best as int] == all@[best as int]@);
        }
        if all[i].beats(&all[best]) {
            best = i;
        }
        i += 1;
    }
    proof {
        assert(js.take(n as int) =~= js);
        assert(js[best as int] == all@[best as int]@);
    }
    let j = all.remove(best);
    proof {
        use_type_invariant(&j);
    }
    Some(j)
}

/// Judging two equal table states gives equal judgments: the same
/// patterns, the same fan and fu, the same payment.
pub proof fn lemma_judge_deterministic(a: Tilesets, b: Tilesets)
    requires
        a@ == b@,
    ensures
        a@.judge() == b@.judge(),
        a@.judge() matches Some(j) ==> b@.judge()->0.value() == j.value(),
{
}

/// Patterns that are all bonus tiles leave nothing to score.
pub proof fn lemma_fix_forms_dora_only(forms: Seq<Form>)
    requires
        all_dora(forms),
    ensures
        fix_forms(forms).len() == 0,
{
    lemma_sort_by_all(forms, form_key(), |f: Form| f.spec_is_dora());
    let sorted = sort_by(forms, form_key());
    assert forall|i: int| 0 <= i < sorted.len() implies (#[trigger] sorted[i]).spec_is_dora() by {
        assert((|f: Form| f.spec_is_dora())(sorted[i]));
    }
    assert(!has_limit(sorted));
}

/// A hand cannot win on bonus tiles alone: where every way to take the
/// hand apart has only bonus tiles for patterns, and the hand is neither
/// seven pairs nor thirteen orphans nor nine gates, there is no judgment.
pub proof fn lemma_judge_dora_only(ts: TilesetsView)
    requires
        forall|i: int|
            0 <= i < AgariView::enumerate(ts).len() ==> all_dora(
                (#[trigger] AgariView::enumerate(ts)[i]).forms(),
            ),
        ts.qiduizi() is None,
        ts.kokushimuso() is None,
        ts.jiulianbaodeng() is None,
    ensures
        ts.judge() is None,
{
    let agaris = AgariView::enumerate(ts);
    lemma_agari_judges_dora_only(agaris, agaris.len() as int);
    assert(ts.judge_all() =~= Seq::<JudgeView>::empty());
}

/// Hands that have only bonus tiles for patterns give no judgment.
pub proof fn lemma_agari_judges_dora_only(agaris: Seq<AgariView>, n: int)
    requires
        n <= agaris.len(),
        forall|i: int| 0 <= i < agaris.len() ==> all_dora((#[trigger] agaris[i]).forms()),
    ensures
        agari_judges(agaris, n).len() == 0,
    decreases n,
{
    if n > 0 {
        lemma_agari_judges_dora_only(agaris, n - 1);
        lemma_fix_forms_dora_only(agaris[n - 1].forms());
    }
}

} // verus!
