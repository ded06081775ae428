//! The query engine: given a target item and a signed target rate in units
//! per minute, finds every recipe producing (positive rate) or consuming
//! (negative rate) the item, and derives exact machine counts, per-machine
//! clock fractions and per-line throughputs in rational arithmetic.

use vstd::prelude::*;

verus! {

use crate::catalog::{Classes, find_key, items_model, lemma_find_key_at};
use crate::classes::{contains_name, has_name, has_str, Item, ItemAmounts, Machine, Recipe,
    RecipeModel, StackSize};
use crate::names::ClassName;
use crate::ratio::{
    Ratio, spec_mul, spec_div, spec_recip, spec_neg, spec_ceil_frac, fits_i64,
};
use crate::record::str_eq;
use vstd::string::StrSliceExecFns;

/// Whether the target item is looked for among a recipe's products or its
/// ingredients.
#[derive(Clone, Copy, Debug, PartialEq, Eq, Structural)]
pub enum SearchMode {
    AsProduct,
    AsIngredient,
}

/// The recoverable outcomes of a query, reported to the caller.
#[derive(Clone, Copy, Debug, PartialEq, Eq, Structural)]
pub enum QueryError {
    /// A zero target rate is invalid input, not "no demand".
    ZeroRate,
    /// No item matches the requested name, even case-folded and with a
    /// trailing `s` stripped.
    UnknownItem,
    /// The item is known but no recipe's searched list contains it at all.
    /// A query whose matches were all dropped for want of a known machine
    /// returns an empty plan list instead: "zero rows by design" is
    /// distinguishable from "found nothing".
    NoMatch,
    /// An exact intermediate value left the 64-bit range, or a matched
    /// recipe has a degenerate (nonpositive) amount or duration.
    ArithmeticOverflow,
}

/// One production plan: how many machines of which kind run this recipe at
/// which clock fraction, and the realized per-line throughputs (units per
/// minute, with per-machine rates beside them).
#[derive(Debug)]
pub struct Plan {
    pub recipe_name: ClassName<Recipe>,
    pub recipe_display: String,
    pub machine_display: String,
    pub parallelism: Ratio,
    pub machines: i64,
    pub overclock: Ratio,
    pub ingredient_rates: Vec<(ClassName<Item>, Ratio, Ratio)>,
    pub product_rates: Vec<(ClassName<Item>, Ratio, Ratio)>,
}

/// The mathematical content of a plan.
pub struct PlanModel {
    pub recipe_name: Seq<char>,
    pub recipe_display: Seq<char>,
    pub machine_display: Seq<char>,
    pub parallelism: Ratio,
    pub machines: int,
    pub overclock: Ratio,
    pub ingredient_rates: Seq<(Seq<char>, Ratio, Ratio)>,
    pub product_rates: Seq<(Seq<char>, Ratio, Ratio)>,
}

pub open spec fn rows_view(v: Seq<(ClassName<Item>, Ratio, Ratio)>) -> Seq<(Seq<char>, Ratio, Ratio)> {
    Seq::new(v.len(), |i: int| (v[i].0@, v[i].1, v[i].2))
}

impl View for Plan {
    type V = PlanModel;

    open spec fn view(&self) -> PlanModel {
        PlanModel {
            recipe_name: self.recipe_name@,
            recipe_display: self.recipe_display@,
            machine_display: self.machine_display@,
            parallelism: self.parallelism,
            machines: self.machines as int,
            overclock: self.overclock,
            ingredient_rates: rows_view(self.ingredient_rates@),
            product_rates: rows_view(self.product_rates@),
        }
    }
}

pub open spec fn plans_view(v: Seq<Plan>) -> Seq<PlanModel> {
    Seq::new(v.len(), |i: int| v[i]@)
}

/// The rational `n / 1`.
pub open spec fn int_ratio(n: i64) -> Ratio {
    Ratio { num: n, den: 1 }
}

// ---------------------------------------------------------------------------
// case-insensitive, plural-tolerant name matching
// ---------------------------------------------------------------------------
/// ASCII lower-casing of one character's code point.
pub open spec fn lower(c: char) -> int {
    if 65 <= (c as u32) && (c as u32) <= 90 {
        (c as u32) + 32
    } else {
        (c as u32) as int
    }
}

/// ASCII-case-insensitive equality.
pub open spec fn eq_icase(a: Seq<char>, b: Seq<char>) -> bool {
    a.len() == b.len() && forall|i: int| 0 <= i < a.len() ==> lower(a[i]) == lower(b[i])
}

/// The query `q` names the item with display name `display`: either a
/// case-insensitive match, or, failing that, the same with one trailing
/// `s` stripped from the query.
pub open spec fn matches_query(display: Seq<char>, q: Seq<char>) -> bool {
    eq_icase(display, q) || (q.len() > 0 && q.last() == 's' && eq_icase(display, q.drop_last()))
}

fn icase_from(a: &str, b: &str, k: usize) -> (r: bool)
    requires
        a@.len() == b@.len(),
        k <= a@.len(),
    ensures
        r == forall|i: int| k <= i < a@.len() ==> lower(a@[i]) == lower(b@[i]),
    decreases a@.len() - k,
{
    if k == a.unicode_len() {
        true
    } else {
        let ca: u32 = a.get_char(k) as u32;
        let cb: u32 = b.get_char(k) as u32;
        let la: u32 = if 65 <= ca && ca <= 90 {
            ca + 32
        } else {
            ca
        };
        let lb: u32 = if 65 <= cb && cb <= 90 {
            cb + 32
        } else {
            cb
        };
        if la == lb {
            icase_from(a, b, k + 1)
        } else {
            false
        }
    }
}

fn eq_icase_exec(a: &str, b: &str) -> (r: bool)
    ensures
        r == eq_icase(a@, b@),
{
    if a.unicode_len() != b.unicode_len() {
        false
    } else {
        icase_from(a, b, 0)
    }
}

fn matches_query_exec(display: &str, q: &str) -> (b: bool)
    ensures
        b == matches_query(display@, q@),
{
    if eq_icase_exec(display, q) {
        true
    } else {
        let ql: usize = q.unicode_len();
        if ql > 0 && q.get_char(ql - 1) == 's' {
            let stem: &str = q.substring_char(0, ql - 1);
            proof {
                assert(stem@ =~= q@.drop_last());
            }
            eq_icase_exec(display, stem)
        } else {
            false
        }
    }
}

// ---------------------------------------------------------------------------
// lookups over the catalog's association vectors
// ---------------------------------------------------------------------------
fn find_item_key(items: &Vec<(ClassName<Item>, Item)>, key: &str) -> (r: Option<usize>)
    ensures
        match r {
            Some(i) => i < items@.len() && find_key(items_model(items@), 0, key@) == i as int,
            None => find_key(items_model(items@), 0, key@) == -1,
        },
{
    let n: usize = items.len();
    let mut j: usize = 0;
    while j < n
        invariant
            j <= n,
            n == items@.len(),
            forall|i: int| 0 <= i < j ==> items@[i].0@ != key@,
        decreases n - j,
    {
        if str_eq(items[j].0.as_str(), key) {
            proof {
                lemma_find_key_at(items_model(items@), key@, 0, j as int);
            }
            return Some(j);
        }
        j += 1;
    }
    proof {
        lemma_find_key_at(items_model(items@), key@, 0, n as int);
    }
    None
}

fn find_machine_key(machines: &Vec<(ClassName<Machine>, Machine)>, key: &str) -> (r: Option<usize>)
    ensures
        match r {
            Some(i) => i < machines@.len() && find_key(
                crate::catalog::machines_model(machines@),
                0,
                key@,
            ) == i as int,
            None => find_key(crate::catalog::machines_model(machines@), 0, key@) == -1,
        },
{
    let n: usize = machines.len();
    let mut j: usize = 0;
    while j < n
        invariant
            j <= n,
            n == machines@.len(),
            forall|i: int| 0 <= i < j ==> machines@[i].0@ != key@,
        decreases n - j,
    {
        if str_eq(machines[j].0.as_str(), key) {
            proof {
                lemma_find_key_at(crate::catalog::machines_model(machines@), key@, 0, j as int);
            }
            return Some(j);
        }
        j += 1;
    }
    proof {
        lemma_find_key_at(crate::catalog::machines_model(machines@), key@, 0, n as int);
    }
    None
}

fn find_recipe_key(recipes: &Vec<(ClassName<Recipe>, Recipe)>, key: &str) -> (r: Option<usize>)
    ensures
        match r {
            Some(i) => i < recipes@.len() && find_key(
                crate::catalog::recipes_model(recipes@),
                0,
                key@,
            ) == i as int,
            None => find_key(crate::catalog::recipes_model(recipes@), 0, key@) == -1,
        },
{
    let n: usize = recipes.len();
    let mut j: usize = 0;
    while j < n
        invariant
            j <= n,
            n == recipes@.len(),
            forall|i: int| 0 <= i < j ==> recipes@[i].0@ != key@,
        decreases n - j,
    {
        if str_eq(recipes[j].0.as_str(), key) {
            proof {
                lemma_find_key_at(crate::catalog::recipes_model(recipes@), key@, 0, j as int);
            }
            return Some(j);
        }
        j += 1;
    }
    proof {
        lemma_find_key_at(crate::catalog::recipes_model(recipes@), key@, 0, n as int);
    }
    None
}

/// Least item index whose display name matches the query, scanning from `j`.
pub open spec fn spec_find_item_from(
    items: Seq<(Seq<char>, (Seq<char>, StackSize))>,
    q: Seq<char>,
    j: int,
) -> Option<int>
    decreases items.len() - j,
{
    if j < 0 || j >= items.len() {
        None
    } else if matches_query(items[j].1.0, q) {
        Some(j)
    } else {
        spec_find_item_from(items, q, j + 1)
    }
}

// ---------------------------------------------------------------------------
// the throughput arithmetic, mirrored step for step
// ---------------------------------------------------------------------------
/// The core of one plan: parallelism `(mag/60) / (amt/dur)`, the machine
/// count as its ceiling, and the per-machine clock fraction, each computed
/// in exact unreduced 64-bit rationals; `None` exactly when a step leaves
/// the representable range (or the per-cycle data is degenerate).
pub open spec fn spec_plan_core(amt: i64, dur: Ratio, mag: Ratio) -> Option<(Ratio, int, Ratio)> {
    if amt == 0 {
        None
    } else {
        match spec_recip(dur) {
            None => None,
            Some(inv) => match spec_mul(inv, int_ratio(amt)) {
                None => None,
                Some(rate) => match spec_div(mag, int_ratio(60)) {
                    None => None,
                    Some(t60) => match spec_div(t60, rate) {
                        None => None,
                        Some(p) => {
                            let m = spec_ceil_frac(p.num as int, p.den as int);
                            if m == 0 {
                                None
                            } else {
                                match spec_div(p, int_ratio(m as i64)) {
                                    None => None,
                                    Some(oc) => Some((p, m, oc)),
                                }
                            }
                        },
                    },
                },
            },
        }
    }
}

fn plan_core(amt: i64, dur: Ratio, mag: Ratio) -> (r: Option<(Ratio, i64, Ratio)>)
    requires
        dur.wf(),
        mag.wf(),
    ensures
        match (r, spec_plan_core(amt, dur, mag)) {
            (Some((p, m, oc)), Some((sp, sm, soc))) => p == sp && m as int == sm && oc == soc
                && p.wf() && oc.wf() && m != 0,
            (None, None) => true,
            _ => false,
        },
{
    if amt == 0 {
        return None;
    }
    let inv: Ratio = match dur.recip() {
        None => {
            return None;
        },
        Some(x) => x,
    };
    let rate: Ratio = match inv.mul(&Ratio::from_int(amt)) {
        None => {
            return None;
        },
        Some(x) => x,
    };
    proof {
        assert(rate.num != 0) by (nonlinear_arith)
            requires
                rate.num == inv.num * amt,
                inv.num != 0,
                amt != 0,
        ;
    }
    let t60: Ratio = match mag.div(&Ratio::from_int(60)) {
        None => {
            return None;
        },
        Some(x) => x,
    };
    let p: Ratio = match t60.div(&rate) {
        None => {
            return None;
        },
        Some(x) => x,
    };
    let m: i64 = p.ceil();
    if m == 0 {
        return None;
    }
    let oc: Ratio = match p.div(&Ratio::from_int(m)) {
        None => {
            return None;
        },
        Some(x) => x,
    };
    Some((p, m, oc))
}

/// Is the item with this key present and fluid-measured?
pub open spec fn is_fluid(
    items: Seq<(Seq<char>, (Seq<char>, StackSize))>,
    key: Seq<char>,
) -> bool {
    let i = find_key(items, 0, key);
    i >= 0 && items[i].1.1 == StackSize::Fluid
}

/// One throughput line: `parallelism * (1/duration) * amount * 60`, scaled
/// back by 1000 for fluid-measured items, and the same per machine.
pub open spec fn spec_row(p: Ratio, dur: Ratio, a2: i64, fluid: bool, m: i64) -> Option<
    (Ratio, Ratio),
> {
    match spec_recip(dur) {
        None => None,
        Some(inv) => match spec_mul(p, inv) {
            None => None,
            Some(t1) => match spec_mul(t1, int_ratio(a2)) {
                None => None,
                Some(t2) => match spec_mul(t2, int_ratio(60)) {
                    None => None,
                    Some(t3) => {
                        let t4o = if fluid {
                            spec_div(t3, int_ratio(1000))
                        } else {
                            Some(t3)
                        };
                        match t4o {
                            None => None,
                            Some(t4) => match spec_div(t4, int_ratio(m)) {
                                None => None,
                                Some(per) => Some((t4, per)),
                            },
                        }
                    },
                },
            },
        },
    }
}

fn row_core(p: Ratio, dur: Ratio, a2: i64, fluid: bool, m: i64) -> (r: Option<(Ratio, Ratio)>)
    requires
        p.wf(),
        dur.wf(),
        m != 0,
    ensures
        r == spec_row(p, dur, a2, fluid, m),
        r is Some ==> r->Some_0.0.wf() && r->Some_0.1.wf(),
{
    let inv: Ratio = match dur.recip() {
        None => {
            return None;
        },
        Some(x) => x,
    };
    let t1: Ratio = match p.mul(&inv) {
        None => {
            return None;
        },
        Some(x) => x,
    };
    let t2: Ratio = match t1.mul(&Ratio::from_int(a2)) {
        None => {
            return None;
        },
        Some(x) => x,
    };
    let t3: Ratio = match t2.mul(&Ratio::from_int(60)) {
        None => {
            return None;
        },
        Some(x) => x,
    };
    let t4: Ratio = if fluid {
        match t3.div(&Ratio::from_int(1000)) {
            None => {
                return None;
            },
            Some(x) => x,
        }
    } else {
        t3
    };
    let per: Ratio = match t4.div(&Ratio::from_int(m)) {
        None => {
            return None;
        },
        Some(x) => x,
    };
    Some((t4, per))
}

/// All throughput lines of one item-amount list, from entry `k` on, in
/// source order.
pub open spec fn spec_rows(
    items: Seq<(Seq<char>, (Seq<char>, StackSize))>,
    amts: Seq<(Seq<char>, i64)>,
    k: int,
    p: Ratio,
    dur: Ratio,
    m: i64,
) -> Option<Seq<(Seq<char>, Ratio, Ratio)>>
    decreases amts.len() - k,
{
    if k < 0 || k >= amts.len() {
        Some(Seq::empty())
    } else {
        match spec_row(p, dur, amts[k].1, is_fluid(items, amts[k].0), m) {
            None => None,
            Some((t, per)) => match spec_rows(items, amts, k + 1, p, dur, m) {
                None => None,
                Some(rest) => Some(seq![(amts[k].0, t, per)] + rest),
            },
        }
    }
}

/// First per-cycle amount of `item` in the list, scanning from `k`.
pub open spec fn amount_of(amts: Seq<(Seq<char>, i64)>, item: Seq<char>, k: int) -> Option<i64>
    decreases amts.len() - k,
{
    if k < 0 || k >= amts.len() {
        None
    } else if amts[k].0 == item {
        Some(amts[k].1)
    } else {
        amount_of(amts, item, k + 1)
    }
}

fn amount_of_exec(amts: &ItemAmounts, key: &str, k: usize) -> (r: Option<i64>)
    requires
        k <= amts.0@.len(),
    ensures
        r == amount_of(amts@, key@, k as int),
    decreases amts.0@.len() - k,
{
    if k == amts.0.len() {
        None
    } else if str_eq(amts.0[k].0.as_str(), key) {
        Some(amts.0[k].1)
    } else {
        amount_of_exec(amts, key, k + 1)
    }
}

/// Display name of the first referenced machine that the catalog knows,
/// scanning the recipe's machine set from `j`.
pub open spec fn spec_first_machine(
    machines: Seq<(Seq<char>, Seq<char>)>,
    pi: Seq<ClassName<Machine>>,
    j: int,
) -> Option<Seq<char>>
    decreases pi.len() - j,
{
    if j < 0 || j >= pi.len() {
        None
    } else {
        let i = find_key(machines, 0, pi[j]@);
        if i >= 0 {
            Some(machines[i].1)
        } else {
            spec_first_machine(machines, pi, j + 1)
        }
    }
}

impl Classes {
    fn first_machine(&self, pi: &Vec<ClassName<Machine>>, j: usize) -> (r: Option<String>)
        requires
            j <= pi@.len(),
        ensures
            match (r, spec_first_machine(self@.machines, pi@, j as int)) {
                (Some(s), Some(m)) => s@ == m,
                (None, None) => true,
                _ => false,
            },
        decreases pi@.len() - j,
    {
        if j == pi.len() {
            None
        } else {
            match find_machine_key(&self.machine, pi[j].as_str()) {
                Some(i) => Some(self.machine[i].1.display_name.clone()),
                None => self.first_machine(pi, j + 1),
            }
        }
    }

    fn build_rows(&self, amts: &ItemAmounts, k: usize, p: Ratio, dur: Ratio, m: i64) -> (r: Option<
        Vec<(ClassName<Item>, Ratio, Ratio)>,
    >)
        requires
            k <= amts.0@.len(),
            p.wf(),
            dur.wf(),
            m != 0,
        ensures
            match (r, spec_rows(self@.items, amts@, k as int, p, dur, m)) {
                (Some(v), Some(ms)) => rows_view(v@) == ms,
                (None, None) => true,
                _ => false,
            },
        decreases amts.0@.len() - k,
    {
        if k == amts.0.len() {
            let out: Vec<(ClassName<Item>, Ratio, Ratio)> = Vec::new();
            proof {
                assert(rows_view(out@) =~= Seq::<(Seq<char>, Ratio, Ratio)>::empty());
            }
            return Some(out);
        }
        let fluid: bool = match find_item_key(&self.items, amts.0[k].0.as_str()) {
            Some(i) => self.items[i].1.stack_size == StackSize::Fluid,
            None => false,
        };
        proof {
            assert(fluid == is_fluid(self@.items, amts@[k as int].0));
        }
        let row = match row_core(p, dur, amts.0[k].1, fluid, m) {
            None => {
                return None;
            },
            Some(x) => x,
        };
        let (t, per) = row;
        match self.build_rows(amts, k + 1, p, dur, m) {
            None => None,
            Some(rest) => {
                let ghost rest_snap = rest@;
                let mut out = rest;
                out.insert(0, (amts.0[k].0.duplicate(), t, per));
                proof {
                    let srest = spec_rows(self@.items, amts@, k as int + 1, p, dur, m)->Some_0;
                    assert forall|i: int| 0 <= i < out@.len() implies rows_view(out@)[i] == (seq![
                        (amts@[k as int].0, t, per),
                    ] + srest)[i] by {
                        if i > 0 {
                            assert(out@[i] == rest_snap[i - 1]);
                            assert(rows_view(rest_snap)[i - 1] == srest[i - 1]);
                        }
                    }
                    assert(rows_view(out@) =~= seq![(amts@[k as int].0, t, per)] + srest);
                }
                Some(out)
            },
        }
    }
}

/// The sequence of plans of all matching, machine-resolvable recipes from
/// recipe index `ri` on; `None` when a plan's arithmetic leaves the
/// representable range.
pub open spec fn spec_plans(
    c: Classes,
    mode: SearchMode,
    item: Seq<char>,
    mag: Ratio,
    ri: int,
) -> Option<Seq<PlanModel>>
    decreases c.recipes@.len() - ri,
{
    if ri < 0 || ri >= c.recipes@.len() {
        Some(Seq::empty())
    } else {
        let rec = c.recipes@[ri].1;
        let amts = if mode == SearchMode::AsIngredient {
            rec.ingredients@
        } else {
            rec.product@
        };
        match amount_of(amts, item, 0) {
            None => spec_plans(c, mode, item, mag, ri + 1),
            Some(amt) => match spec_first_machine(c@.machines, rec.produced_in.0@, 0) {
                None => spec_plans(c, mode, item, mag, ri + 1),
                Some(mdisp) => match spec_plan_core(amt, rec.manufactoring_duration, mag) {
                    None => None,
                    Some((p, m, oc)) => match spec_rows(
                        c@.items,
                        rec.ingredients@,
                        0,
                        p,
                        rec.manufactoring_duration,
                        m as i64,
                    ) {
                        None => None,
                        Some(ing_rows) => match spec_rows(
                            c@.items,
                            rec.product@,
                            0,
                            p,
                            rec.manufactoring_duration,
                            m as i64,
                        ) {
                            None => None,
                            Some(prod_rows) => match spec_plans(c, mode, item, mag, ri + 1) {
                                None => None,
                                Some(rest) => Some(
                                    seq![
                                        PlanModel {
                                            recipe_name: c.recipes@[ri].0@,
                                            recipe_display: rec.display_name@,
                                            machine_display: mdisp,
                                            parallelism: p,
                                            machines: m,
                                            overclock: oc,
                                            ingredient_rates: ing_rows,
                                            product_rates: prod_rows,
                                        },
                                    ] + rest,
                                ),
                            },
                        },
                    },
                },
            },
        }
    }
}

impl Classes {
    fn build_plans(&self, mode: SearchMode, key: &ClassName<Item>, mag: Ratio, ri: usize) -> (r:
        Option<Vec<Plan>>)
        requires
            self.wf(),
            mag.wf(),
            ri <= self.recipes@.len(),
        ensures
            match (r, spec_plans(*self, mode, key@, mag, ri as int)) {
                (Some(v), Some(ms)) => plans_view(v@) == ms,
                (None, None) => true,
                _ => false,
            },
        decreases self.recipes@.len() - ri,
    {
        if ri == self.recipes.len() {
            let out: Vec<Plan> = Vec::new();
            proof {
                assert(plans_view(out@) =~= Seq::<PlanModel>::empty());
            }
            return Some(out);
        }
        proof {
            assert((self.recipes@[ri as int].1).wf());
        }
        let rec: &Recipe = &self.recipes[ri].1;
        let amts: &ItemAmounts = if mode == SearchMode::AsIngredient {
            &rec.ingredients
        } else {
            &rec.product
        };
        let amt: i64 = match amount_of_exec(amts, key.as_str(), 0) {
            None => {
                return self.build_plans(mode, key, mag, ri + 1);
            },
            Some(a) => a,
        };
        let mdisp: String = match self.first_machine(&rec.produced_in.0, 0) {
            None => {
                return self.build_plans(mode, key, mag, ri + 1);
            },
            Some(s) => s,
        };
        let core = match plan_core(amt, rec.manufactoring_duration, mag) {
            None => {
                return None;
            },
            Some(x) => x,
        };
        let (p, m, oc) = core;
        let ing_rows = match self.build_rows(&rec.ingredients, 0, p, rec.manufactoring_duration, m)
            {
            None => {
                return None;
            },
            Some(x) => x,
        };
        let prod_rows = match self.build_rows(&rec.product, 0, p, rec.manufactoring_duration, m) {
            None => {
                return None;
            },
            Some(x) => x,
        };
        let plan = Plan {
            recipe_name: self.recipes[ri].0.duplicate(),
            recipe_display: rec.display_name.clone(),
            machine_display: mdisp,
            parallelism: p,
            machines: m,
            overclock: oc,
            ingredient_rates: ing_rows,
            product_rates: prod_rows,
        };
        match self.build_plans(mode, key, mag, ri + 1) {
            None => None,
            Some(rest) => {
                let ghost rest_snap = rest@;
                let ghost planm = plan@;
                let mut out = rest;
                out.insert(0, plan);
                proof {
                    let srest = spec_plans(*self, mode, key@, mag, ri as int + 1)->Some_0;
                    let shead = spec_plans(*self, mode, key@, mag, ri as int)->Some_0[0];
                    assert forall|i: int| 0 <= i < out@.len() implies plans_view(out@)[i] == (seq![
                        shead,
                    ] + srest)[i] by {
                        if i > 0 {
                            assert(out@[i] == rest_snap[i - 1]);
                            assert(plans_view(rest_snap)[i - 1] == srest[i - 1]);
                        } else {
                            assert(out@[0] == plan);
                        }
                    }
                    assert(plans_view(out@) =~= seq![shead] + srest);
                }
                Some(out)
            },
        }
    }

    /// Does any recipe at index `ri` or later contain the item in the
    /// searched list?
    fn any_match_from(&self, mode: SearchMode, key: &ClassName<Item>, ri: usize) -> (b: bool)
        requires
            ri <= self.recipes@.len(),
        ensures
            b == any_match(*self, mode, key@, ri as int),
        decreases self.recipes@.len() - ri,
    {
        if ri == self.recipes.len() {
            return false;
        }
        let rec: &Recipe = &self.recipes[ri].1;
        let amts: &ItemAmounts = if mode == SearchMode::AsIngredient {
            &rec.ingredients
        } else {
            &rec.product
        };
        match amount_of_exec(amts, key.as_str(), 0) {
            Some(_) => true,
            None => self.any_match_from(mode, key, ri + 1),
        }
    }

    /// Least-index item whose display name matches the query, scanning from
    /// `j`.
    fn find_item_from(&self, name: &str, j: usize) -> (r: Option<usize>)
        requires
            j <= self.items@.len(),
        ensures
            match (r, spec_find_item_from(self@.items, name@, j as int)) {
                (Some(i), Some(si)) => i as int == si && i < self.items@.len(),
                (None, None) => true,
                _ => false,
            },
        decreases self.items@.len() - j,
    {
        if j == self.items.len() {
            None
        } else if matches_query_exec(self.items[j].1.display_name.as_str(), name) {
            Some(j)
        } else {
            self.find_item_from(name, j + 1)
        }
    }

    /// Resolves a user-supplied item name, case-insensitively and tolerating
    /// one trailing `s`, to the index of the first matching catalog item;
    /// on a well-formed catalog the scan runs in ascending key order.
    pub fn find_item(&self, name: &str) -> (r: Option<usize>)
        ensures
            match (r, spec_find_item_from(self@.items, name@, 0)) {
                (Some(i), Some(si)) => i as int == si && i < self.items@.len(),
                (None, None) => true,
                _ => false,
            },
    {
        self.find_item_from(name, 0)
    }

    /// Presence-checked lookup of an item by class name.
    pub fn get_item(&self, name: &ClassName<Item>) -> (r: Option<&Item>)
        ensures
            match r {
                Some(it) => {
                    let i = find_key(self@.items, 0, name@);
                    i >= 0 && self@.items[i].1 == (it.display_name@, it.stack_size)
                },
                None => find_key(self@.items, 0, name@) == -1,
            },
    {
        match find_item_key(&self.items, name.as_str()) {
            Some(i) => Some(&self.items[i].1),
            None => None,
        }
    }

    /// Presence-checked lookup of a machine by class name.
    pub fn get_machine(&self, name: &ClassName<Machine>) -> (r: Option<&Machine>)
        ensures
            match r {
                Some(mc) => {
                    let i = find_key(self@.machines, 0, name@);
                    i >= 0 && self@.machines[i].1 == mc.display_name@
                },
                None => find_key(self@.machines, 0, name@) == -1,
            },
    {
        match find_machine_key(&self.machine, name.as_str()) {
            Some(i) => Some(&self.machine[i].1),
            None => None,
        }
    }

    /// Presence-checked lookup of a recipe by class name.
    pub fn get_recipe(&self, name: &ClassName<Recipe>) -> (r: Option<&Recipe>)
        ensures
            match r {
                Some(rec) => {
                    let i = find_key(self@.recipes, 0, name@);
                    i >= 0 && self@.recipes[i].1 == rec@
                },
                None => find_key(self@.recipes, 0, name@) == -1,
            },
    {
        match find_recipe_key(&self.recipes, name.as_str()) {
            Some(i) => Some(&self.recipes[i].1),
            None => None,
        }
    }
}

// ---------------------------------------------------------------------------
// unresolved references
// ---------------------------------------------------------------------------
/// Some entry of the item-amount list names `n`.
pub open spec fn amts_has(s: Seq<(Seq<char>, i64)>, n: Seq<char>) -> bool {
    exists|k: int| 0 <= k < s.len() && s[k].0 == n
}

/// The recipe's ingredient or product list names `n`.
pub open spec fn recipe_refs(r: RecipeModel, n: Seq<char>) -> bool {
    amts_has(r.ingredients, n) || amts_has(r.product, n)
}

/// The item collection has an entry keyed `n`.
pub open spec fn items_has(items: Seq<(Seq<char>, (Seq<char>, StackSize))>, n: Seq<char>) -> bool {
    find_key(items, 0, n) >= 0
}

/// Some of the first `ri` recipes references `n`.
pub open spec fn refs_before(c: Classes, ri: int, n: Seq<char>) -> bool {
    exists|i: int| 0 <= i < ri && i < c@.recipes.len() && recipe_refs(#[trigger] c@.recipes[i].1, n)
}

/// `n` is an unresolved reference: some recipe names it among its
/// ingredients or products, and the item collection has no such key.
pub open spec fn is_missing_ref(c: Classes, n: Seq<char>) -> bool {
    refs_before(c, c@.recipes.len() as int, n) && !items_has(c@.items, n)
}

/// Some of the first `k` entries of the item-amount list names `n`.
pub open spec fn amts_has_prefix(s: Seq<(Seq<char>, i64)>, k: int, n: Seq<char>) -> bool {
    exists|j: int| 0 <= j < k && s[j].0 == n
}

/// Appends every item name of the list to `out` (duplicates included).
fn append_names(out: &mut Vec<ClassName<Item>>, amts: &ItemAmounts)
    ensures
        forall|n: Seq<char>| #[trigger]
            has_name(final(out)@, n) <==> has_name(old(out)@, n) || amts_has(amts@, n),
{
    let len: usize = amts.0.len();
    let mut k: usize = 0;
    while k < len
        invariant
            k <= len,
            len == amts.0@.len(),
            forall|n: Seq<char>| #[trigger]
                has_name(out@, n) <==> has_name(old(out)@, n) || amts_has_prefix(
                    amts@,
                    k as int,
                    n,
                ),
        decreases len - k,
    {
        let ghost pre = out@;
        out.push(amts.0[k].0.duplicate());
        k += 1;
        proof {
            let kk = k as int - 1;
            assert forall|n: Seq<char>| #[trigger]
                has_name(out@, n) <==> has_name(old(out)@, n) || amts_has_prefix(
                    amts@,
                    k as int,
                    n,
                ) by {
                assert(has_name(pre, n) <==> has_name(old(out)@, n) || amts_has_prefix(
                    amts@,
                    kk,
                    n,
                ));
                if has_name(out@, n) {
                    let i = choose|i: int| 0 <= i < out@.len() && out@[i]@ == n;
                    if i < pre.len() {
                        assert(pre[i]@ == n);
                        assert(has_name(pre, n));
                    } else {
                        assert(out@[i]@ == amts@[kk].0);
                        assert(0 <= kk < k as int && amts@[kk].0 == n);
                        assert(amts_has_prefix(amts@, k as int, n));
                    }
                }
                if has_name(old(out)@, n) {
                    assert(has_name(pre, n));
                    let i2 = choose|i2: int| 0 <= i2 < pre.len() && pre[i2]@ == n;
                    assert(out@[i2]@ == n);
                    assert(has_name(out@, n));
                }
                if amts_has_prefix(amts@, k as int, n) {
                    let j = choose|j: int| 0 <= j < k && amts@[j].0 == n;
                    if j < kk {
                        assert(amts_has_prefix(amts@, kk, n));
                        let i = choose|i: int| 0 <= i < pre.len() && pre[i]@ == n;
                        assert(out@[i]@ == n);
                    } else {
                        assert(out@[out@.len() - 1]@ == n);
                    }
                    assert(has_name(out@, n));
                }
            }
        }
    }
    proof {
        assert forall|n: Seq<char>| amts_has_prefix(amts@, len as int, n) == amts_has(amts@, n) by {}
    }
}

impl Classes {
    /// The startup diagnostic set: every item name referenced by any
    /// recipe's ingredient or product list that is absent from the item
    /// collection, each exactly once.
    pub fn missing_items(&self) -> (r: Vec<ClassName<Item>>)
        ensures
            forall|a: int, b: int|
                0 <= a < r@.len() && 0 <= b < r@.len() && a != b ==> r@[a]@ != r@[b]@,
            forall|n: Seq<char>| #[trigger] has_name(r@, n) <==> is_missing_ref(*self, n),
    {
        let rn: usize = self.recipes.len();
        let mut refs: Vec<ClassName<Item>> = Vec::new();
        let mut ri: usize = 0;
        while ri < rn
            invariant
                ri <= rn,
                rn == self.recipes@.len(),
                forall|n: Seq<char>| #[trigger]
                    has_name(refs@, n) <==> refs_before(*self, ri as int, n),
            decreases rn - ri,
        {
            let ghost pre = refs@;
            append_names(&mut refs, &self.recipes[ri].1.ingredients);
            append_names(&mut refs, &self.recipes[ri].1.product);
            ri += 1;
            proof {
                let kk = ri as int - 1;
                let rec = self@.recipes[kk].1;
                assert(rec.ingredients == self.recipes@[kk].1.ingredients@);
                assert(rec.product == self.recipes@[kk].1.product@);
                assert forall|n: Seq<char>| #[trigger]
                    has_name(refs@, n) <==> refs_before(*self, ri as int, n) by {
                    assert(has_name(pre, n) <==> refs_before(*self, kk, n));
                    if has_name(refs@, n) {
                        if has_name(pre, n) {
                            let i = choose|i: int|
                                0 <= i < kk && i < self@.recipes.len() && recipe_refs(
                                    self@.recipes[i].1,
                                    n,
                                );
                            assert(refs_before(*self, ri as int, n));
                        } else {
                            assert(recipe_refs(rec, n));
                            assert(refs_before(*self, ri as int, n));
                        }
                    }
                    if refs_before(*self, ri as int, n) {
                        let i = choose|i: int|
                            0 <= i < ri && i < self@.recipes.len() && recipe_refs(
                                #[trigger] self@.recipes[i].1,
                                n,
                            );
                        if i < kk {
                            assert(refs_before(*self, kk, n));
                            assert(has_name(pre, n));
                        } else {
                            assert(recipe_refs(rec, n));
                        }
                        assert(has_name(refs@, n));
                    }
                }
            }
        }
        let fn_len: usize = refs.len();
        let mut out: Vec<ClassName<Item>> = Vec::new();
        let mut k: usize = 0;
        while k < fn_len
            invariant
                k <= fn_len,
                fn_len == refs@.len(),
                forall|n: Seq<char>| #[trigger]
                    has_name(refs@, n) <==> refs_before(*self, self@.recipes.len() as int, n),
                forall|a: int, b: int|
                    0 <= a < out@.len() && 0 <= b < out@.len() && a != b ==> out@[a]@ != out@[b]@,
                forall|n: Seq<char>| #[trigger]
                    has_name(out@, n) <==> has_str(refs@, k as int, n) && !items_has(
                        self@.items,
                        n,
                    ),
            decreases fn_len - k,
        {
            let ghost pre = out@;
            let missing: bool = match find_item_key(&self.items, refs[k].as_str()) {
                Some(_) => false,
                None => true,
            };
            if missing && !contains_name(&out, refs[k].as_str()) {
                out.push(refs[k].duplicate());
            }
            k += 1;
            proof {
                let kk = k as int - 1;
                assert forall|n: Seq<char>| #[trigger]
                    has_name(out@, n) <==> has_str(refs@, k as int, n) && !items_has(
                        self@.items,
                        n,
                    ) by {
                    assert(has_name(pre, n) <==> has_str(refs@, kk, n) && !items_has(
                        self@.items,
                        n,
                    ));
                    if has_name(out@, n) {
                        let i = choose|i: int| 0 <= i < out@.len() && out@[i]@ == n;
                        if i < pre.len() {
                            assert(pre[i]@ == n);
                            assert(has_name(pre, n));
                            let j = choose|j: int| 0 <= j < kk && refs@[j]@ == n;
                            assert(0 <= j < k as int && refs@[j]@ == n);
                            assert(has_str(refs@, k as int, n));
                        } else {
                            assert(out@[i]@ == refs@[kk]@);
                            assert(0 <= kk < k as int && refs@[kk]@ == n);
                            assert(has_str(refs@, k as int, n));
                            assert(!items_has(self@.items, n));
                        }
                    }
                    if has_str(refs@, k as int, n) && !items_has(self@.items, n) {
                        let j = choose|j: int| 0 <= j < k && refs@[j]@ == n;
                        if j < kk {
                            assert(has_str(refs@, kk, n));
                            let i = choose|i: int| 0 <= i < pre.len() && pre[i]@ == n;
                            assert(out@[i]@ == n);
                        } else {
                            if has_name(pre, n) {
                                let i = choose|i: int| 0 <= i < pre.len() && pre[i]@ == n;
                                assert(out@[i]@ == n);
                            } else {
                                assert(out@[out@.len() - 1]@ == n);
                            }
                        }
                        assert(has_name(out@, n));
                    }
                }
            }
        }
        proof {
            assert forall|n: Seq<char>| #[trigger]
                has_name(out@, n) <==> is_missing_ref(*self, n) by {
                if has_name(out@, n) {
                    let j = choose|j: int| 0 <= j < fn_len && refs@[j]@ == n;
                    assert(refs@[j]@ == n);
                    assert(has_name(refs@, n));
                }
                if is_missing_ref(*self, n) {
                    assert(has_name(refs@, n));
                    let i = choose|i: int| 0 <= i < refs@.len() && refs@[i]@ == n;
                    assert(has_str(refs@, fn_len as int, n));
                }
            }
        }
        out
    }
}

// ---------------------------------------------------------------------------
// the query itself
// ---------------------------------------------------------------------------
/// Some recipe at index `ri` or later contains the item in the searched
/// list (whether or not a machine can be resolved for it).
pub open spec fn any_match(c: Classes, mode: SearchMode, item: Seq<char>, ri: int) -> bool
    decreases c.recipes@.len() - ri,
{
    if ri < 0 || ri >= c.recipes@.len() {
        false
    } else {
        let rec = c.recipes@[ri].1;
        let amts = if mode == SearchMode::AsIngredient {
            rec.ingredients@
        } else {
            rec.product@
        };
        amount_of(amts, item, 0) is Some || any_match(c, mode, item, ri + 1)
    }
}

/// Wraps the plan fold in the caller-facing outcome: overflow aborts; the
/// explicit no-match answer is reserved for an item that no recipe's
/// searched list contains, so that matches which were all dropped for want
/// of a known machine still yield an (empty) plan list.
pub open spec fn spec_run(c: Classes, mode: SearchMode, key: Seq<char>, mag: Ratio) -> Result<
    Seq<PlanModel>,
    QueryError,
> {
    match spec_plans(c, mode, key, mag, 0) {
        None => Err(QueryError::ArithmeticOverflow),
        Some(ps) => if !any_match(c, mode, key, 0) {
            Err(QueryError::NoMatch)
        } else {
            Ok(ps)
        },
    }
}

/// A query with the search mode already fixed and a nonnegative magnitude.
pub open spec fn spec_query_mag(c: Classes, name: Seq<char>, mode: SearchMode, mag: Ratio) -> Result<
    Seq<PlanModel>,
    QueryError,
> {
    match spec_find_item_from(c@.items, name, 0) {
        None => Err(QueryError::UnknownItem),
        Some(i) => if mag.num == 0 {
            Err(QueryError::ZeroRate)
        } else {
            let fluid = c@.items[i].1.1 == StackSize::Fluid;
            match (if fluid {
                spec_mul(mag, int_ratio(1000))
            } else {
                Some(mag)
            }) {
                None => Err(QueryError::ArithmeticOverflow),
                Some(scaled) => spec_run(c, mode, c@.items[i].0, scaled),
            }
        },
    }
}

/// The full directional query: a positive rate asks for recipes producing
/// the item, a negative rate flips to recipes consuming it, a zero rate is
/// invalid input.
pub open spec fn spec_query(c: Classes, name: Seq<char>, rate: Ratio) -> Result<
    Seq<PlanModel>,
    QueryError,
> {
    match spec_find_item_from(c@.items, name, 0) {
        None => Err(QueryError::UnknownItem),
        Some(i) => if rate.num == 0 {
            Err(QueryError::ZeroRate)
        } else {
            let fluid = c@.items[i].1.1 == StackSize::Fluid;
            match (if fluid {
                spec_mul(rate, int_ratio(1000))
            } else {
                Some(rate)
            }) {
                None => Err(QueryError::ArithmeticOverflow),
                Some(scaled) => if scaled.num < 0 {
                    match spec_neg(scaled) {
                        None => Err(QueryError::ArithmeticOverflow),
                        Some(mag) => spec_run(c, SearchMode::AsIngredient, c@.items[i].0, mag),
                    }
                } else {
                    spec_run(c, SearchMode::AsProduct, c@.items[i].0, scaled)
                },
            }
        },
    }
}

// ---------------------------------------------------------------------------
// laws of the throughput arithmetic
// ---------------------------------------------------------------------------
/// For a positive target magnitude and a recipe with positive per-cycle
/// amount `amt` and positive duration, the computed plan is exact:
/// parallelism equals `(mag/60) / (amt/dur)` as a rational identity, the
/// machine count is its ceiling and at least one, the clock fraction lies
/// in `(0, 1]`, and machines times clock fraction equals parallelism
/// exactly.
pub proof fn lemma_plan_exact(amt: i64, dur: Ratio, mag: Ratio, p: Ratio, m: int, oc: Ratio)
    requires
        dur.wf(),
        mag.wf(),
        amt > 0,
        dur.num > 0,
        mag.num > 0,
        spec_plan_core(amt, dur, mag) == Some((p, m, oc)),
    ensures
        p.wf(),
        oc.wf(),
        p.num > 0,
        p.num * (mag.den * 60 * amt * dur.den) == (mag.num * dur.num) * p.den,
        m == spec_ceil_frac(p.num as int, p.den as int),
        m >= 1,
        oc.num > 0,
        oc.num <= oc.den,
        m * oc.num * p.den == p.num * oc.den,
{
    let inv = Ratio { num: dur.den, den: dur.num };
    assert(spec_recip(dur) == Some(inv));
    let rate = spec_mul(inv, int_ratio(amt))->Some_0;
    assert(rate.num == dur.den * amt && rate.den == dur.num);
    let t60 = spec_div(mag, int_ratio(60))->Some_0;
    assert(mag.den * 60 > 0);
    assert(t60.num == mag.num && t60.den == mag.den * 60);
    let pn = t60.num * rate.den;
    let pd = t60.den * rate.num;
    assert(pd > 0 && pn > 0) by (nonlinear_arith)
        requires
            pd == t60.den * rate.num,
            pn == t60.num * rate.den,
            t60.den > 0,
            rate.num == dur.den * amt,
            dur.den > 0,
            amt > 0,
            t60.num == mag.num,
            mag.num > 0,
            rate.den == dur.num,
            dur.num > 0,
    ;
    assert(p.num == pn && p.den == pd);
    assert(p.num * (mag.den * 60 * amt * dur.den) == (mag.num * dur.num) * p.den)
        by (nonlinear_arith)
        requires
            p.num == mag.num * dur.num,
            p.den == (mag.den * 60) * (dur.den * amt),
    ;
    assert(m == spec_ceil_frac(p.num as int, p.den as int));
    lemma_ceil_frac_bounds(p.num as int, p.den as int);
    assert(m >= 1) by (nonlinear_arith)
        requires
            p.den * m >= p.num,
            p.num > 0,
            p.den > 0,
    ;
    assert(m <= p.num) by (nonlinear_arith)
        requires
            p.den * (m - 1) < p.num,
            p.den >= 1,
            m >= 1,
    ;
    assert((m as i64) == m);
    assert(p.den * m > 0) by (nonlinear_arith)
        requires
            p.den > 0,
            m >= 1,
    ;
    assert(oc.num == p.num && oc.den == p.den * m);
    assert(oc.num <= oc.den) by (nonlinear_arith)
        requires
            oc.num == p.num,
            oc.den == p.den * m,
            p.den * m >= p.num,
    ;
    assert(m * oc.num * p.den == p.num * oc.den) by (nonlinear_arith)
        requires
            oc.num == p.num,
            oc.den == p.den * m,
    ;
}

/// The ceiling form satisfies the two ceiling inequalities.
pub proof fn lemma_ceil_frac_bounds(n: int, d: int)
    requires
        d > 0,
    ensures
        d * spec_ceil_frac(n, d) >= n,
        d * (spec_ceil_frac(n, d) - 1) < n,
{
    let q = (-n) / d;
    vstd::arithmetic::div_mod::lemma_fundamental_div_mod(-n, d);
    let rem = (-n) % d;
    assert(d * (-q) >= n && d * (-q - 1) < n) by (nonlinear_arith)
        requires
            d > 0,
            -n == d * q + rem,
            0 <= rem < d,
    ;
}

/// Every throughput line is exact: the realized rate is
/// `parallelism * (60 / duration) * amount` in units per minute (divided
/// by 1000 for fluid-measured items), and the per-machine rate is that
/// divided by the machine count.
pub proof fn lemma_row_exact(p: Ratio, dur: Ratio, a2: i64, fluid: bool, m: i64, t: Ratio, per: Ratio)
    requires
        p.wf(),
        dur.wf(),
        dur.num > 0,
        m >= 1,
        spec_row(p, dur, a2, fluid, m) == Some((t, per)),
    ensures
        t.wf(),
        per.wf(),
        !fluid ==> t.num * (p.den * dur.num) == (p.num * dur.den * a2 * 60) * t.den,
        fluid ==> t.num * (p.den * dur.num * 1000) == (p.num * dur.den * a2 * 60) * t.den,
        per.num * (t.den * m) == t.num * per.den,
{
    let inv = Ratio { num: dur.den, den: dur.num };
    assert(spec_recip(dur) == Some(inv));
    let t1 = spec_mul(p, inv)->Some_0;
    assert(t1.num == p.num * dur.den && t1.den == p.den * dur.num);
    let t2 = spec_mul(t1, int_ratio(a2))->Some_0;
    assert(t2.num == t1.num * a2 && t2.den == t1.den);
    let t3 = spec_mul(t2, int_ratio(60))->Some_0;
    assert(t3.num == t2.num * 60 && t3.den == t2.den);
    assert(t3.den > 0) by (nonlinear_arith)
        requires
            t3.den == p.den * dur.num,
            p.den > 0,
            dur.num > 0,
    ;
    if fluid {
        assert(t3.den * 1000 > 0);
        assert(t.num == t3.num && t.den == t3.den * 1000);
        assert(t.num * (p.den * dur.num * 1000) == (p.num * dur.den * a2 * 60) * t.den)
            by (nonlinear_arith)
            requires
                t.num == ((p.num * dur.den) * a2) * 60,
                t.den == (p.den * dur.num) * 1000,
        ;
    } else {
        assert(t == t3);
        assert(t.num * (p.den * dur.num) == (p.num * dur.den * a2 * 60) * t.den)
            by (nonlinear_arith)
            requires
                t.num == ((p.num * dur.den) * a2) * 60,
                t.den == p.den * dur.num,
        ;
    }
    assert(t.den * m > 0) by (nonlinear_arith)
        requires
            t.den > 0,
            m >= 1,
    ;
    assert(per.num == t.num && per.den == t.den * m);
    assert(per.num * (t.den * m) == t.num * per.den) by (nonlinear_arith)
        requires
            per.num == t.num,
            per.den == t.den * m,
    ;
}

/// Querying a negative target rate is exactly querying the positive
/// magnitude with the search mode switched from "as product" to
/// "as ingredient".
pub proof fn lemma_negative_rate_flips_mode(c: Classes, name: Seq<char>, rate: Ratio)
    requires
        rate.wf(),
        rate.num < 0,
        rate.num != i64::MIN,
    ensures
        spec_query(c, name, rate) == spec_query_mag(
            c,
            name,
            SearchMode::AsIngredient,
            Ratio { num: (-rate.num) as i64, den: rate.den },
        ),
{
    let pos = Ratio { num: (-rate.num) as i64, den: rate.den };
    if spec_find_item_from(c@.items, name, 0) is Some {
        let i = spec_find_item_from(c@.items, name, 0)->Some_0;
        let fluid = c@.items[i].1.1 == StackSize::Fluid;
        assert(pos.num == -rate.num && pos.den == rate.den);
        if fluid {
            let x = rate.num * 1000;
            assert(x < 0);
            assert(pos.num * 1000 == -x);
            if fits_i64(x) {
                let scaled = spec_mul(rate, int_ratio(1000))->Some_0;
                assert(scaled.num == x && scaled.den == rate.den);
                if x == i64::MIN {
                    assert(spec_neg(scaled) is None);
                    assert(!fits_i64(pos.num * 1000));
                    assert(spec_mul(pos, int_ratio(1000)) is None);
                } else {
                    assert(spec_neg(scaled) == Some(Ratio { num: (-x) as i64, den: rate.den }));
                    assert(spec_mul(pos, int_ratio(1000)) == Some(
                        Ratio { num: (-x) as i64, den: rate.den },
                    ));
                }
            } else {
                assert(x < i64::MIN);
                assert(-x > i64::MAX);
                assert(spec_mul(pos, int_ratio(1000)) is None);
            }
        } else {
            assert(spec_neg(rate) == Some(pos));
        }
    }
}

/// A zero target rate for a known item is rejected as invalid input, never
/// treated as "no demand".
pub proof fn lemma_zero_rate_rejected(c: Classes, name: Seq<char>, rate: Ratio)
    requires
        rate.num == 0,
        spec_find_item_from(c@.items, name, 0) is Some,
    ensures
        spec_query(c, name, rate) == Err::<Seq<PlanModel>, QueryError>(QueryError::ZeroRate),
{
}

impl Classes {
    /// Answers a directional throughput query.
    ///
    /// Returns exactly what [`spec_query`] denotes: the plan list of every
    /// matching machine-resolvable recipe for a known item and nonzero
    /// rate, and the precise error otherwise.
    pub fn query(&self, item_name: &str, rate: Ratio) -> (r: Result<Vec<Plan>, QueryError>)
        requires
            self.wf(),
            rate.wf(),
        ensures
            match (r, spec_query(*self, item_name@, rate)) {
                (Ok(v), Ok(ms)) => plans_view(v@) == ms,
                (Err(a), Err(b)) => a == b,
                _ => false,
            },
    {
        let idx: usize = match self.find_item(item_name) {
            None => {
                return Err(QueryError::UnknownItem);
            },
            Some(i) => i,
        };
        if rate.is_zero() {
            return Err(QueryError::ZeroRate);
        }
        let fluid: bool = self.items[idx].1.stack_size == StackSize::Fluid;
        let scaled: Ratio = if fluid {
            match rate.mul(&Ratio::from_int(1000)) {
                None => {
                    return Err(QueryError::ArithmeticOverflow);
                },
                Some(x) => x,
            }
        } else {
            rate
        };
        let key: &ClassName<Item> = &self.items[idx].0;
        if scaled.is_negative() {
            let mag: Ratio = match scaled.neg() {
                None => {
                    return Err(QueryError::ArithmeticOverflow);
                },
                Some(x) => x,
            };
            match self.build_plans(SearchMode::AsIngredient, key, mag, 0) {
                None => Err(QueryError::ArithmeticOverflow),
                Some(plans) => if !self.any_match_from(SearchMode::AsIngredient, key, 0) {
                    Err(QueryError::NoMatch)
                } else {
                    Ok(plans)
                },
            }
        } else {
            match self.build_plans(SearchMode::AsProduct, key, scaled, 0) {
                None => Err(QueryError::ArithmeticOverflow),
                Some(plans) => if !self.any_match_from(SearchMode::AsProduct, key, 0) {
                    Err(QueryError::NoMatch)
                } else {
                    Ok(plans)
                },
            }
        }
    }
}

} // verus!
