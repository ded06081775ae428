//! The in-memory catalog: three keyed collections built in one pass over the
//! export's class collections, classifying each collection by its declared
//! native type against a fixed allow-list.

use vstd::prelude::*;

verus! {

use crate::classes::{
    Class, ClassCollection, Item, LoadError, Machine, Recipe, RecipeModel, StackSize, spec_item,
    spec_machine, spec_recipe,
};
use crate::names::ClassName;
use crate::record::{
    lit_at, match_lit, str_eq, str_lt, str_lt_exec, lemma_str_lt_connex, lemma_str_lt_irrefl,
    lemma_str_lt_trans,
};
use vstd::string::StrSliceExecFns;

// ---------------------------------------------------------------------------
// native-type classification
// ---------------------------------------------------------------------------
/// The entity kind a class collection's native type declares.
#[derive(Clone, Copy, Debug, PartialEq, Eq, Structural)]
pub enum NativeKind {
    ItemKind,
    RecipeKind,
    MachineKind,
    /// A record kind outside this domain; silently dropped.
    Ignored,
}

/// The inner native-type names that map to items.
pub open spec fn is_item_native(s: Seq<char>) -> bool {
    ||| s == "FGItemDescriptor"@
    ||| s == "FGItemDescriptorBiomass"@
    ||| s == "FGItemDescriptorNuclearFuel"@
    ||| s == "FGItemDescriptorPowerBoosterFuel"@
    ||| s == "FGResourceDescriptor"@
    ||| s == "FGBuildingDescriptor"@
    ||| s == "FGPowerShardDescriptor"@
    ||| s == "FGVehicleDescriptor"@
    ||| s == "FGAmmoTypeProjectile"@
    ||| s == "FGConsumableDescriptor"@
    ||| s == "FGAmmoTypeSpreadshot"@
    ||| s == "FGEquipmentDescriptor"@
    ||| s == "FGPoleDescriptor"@
    ||| s == "FGAmmoTypeInstantHit"@
}

/// Classifies a native-type string. `None` means the expected wrapper text
/// is absent: the export no longer matches the understood format.
pub open spec fn spec_classify(s: Seq<char>) -> Option<NativeKind> {
    let pre = "/Script/CoreUObject.Class'/Script/FactoryGame."@;
    if !(lit_at(s, 0, pre) && s.len() >= pre.len() + 1 && s.last() == '\'') {
        None
    } else {
        let inner = s.subrange(pre.len() as int, s.len() - 1);
        if is_item_native(inner) {
            Some(NativeKind::ItemKind)
        } else if inner == "FGRecipe"@ {
            Some(NativeKind::RecipeKind)
        } else if inner == "FGBuildableManufacturer"@ || inner
            == "FGBuildableManufacturerVariablePower"@ {
            Some(NativeKind::MachineKind)
        } else {
            Some(NativeKind::Ignored)
        }
    }
}

fn classify(s: &str) -> (r: Option<NativeKind>)
    ensures
        r == spec_classify(s@),
{
    let pre: &str = "/Script/CoreUObject.Class'/Script/FactoryGame.";
    let plen: usize = pre.unicode_len();
    let slen: usize = s.unicode_len();
    if !(match_lit(s, 0, pre) && slen > plen && s.get_char(slen - 1)
        == '\'') {
        return None;
    }
    let inner: &str = s.substring_char(plen, slen - 1);
    if str_eq(inner, "FGItemDescriptor") || str_eq(inner, "FGItemDescriptorBiomass") || str_eq(
        inner,
        "FGItemDescriptorNuclearFuel",
    ) || str_eq(inner, "FGItemDescriptorPowerBoosterFuel") || str_eq(inner, "FGResourceDescriptor")
        || str_eq(inner, "FGBuildingDescriptor") || str_eq(inner, "FGPowerShardDescriptor")
        || str_eq(inner, "FGVehicleDescriptor") || str_eq(inner, "FGAmmoTypeProjectile") || str_eq(
        inner,
        "FGConsumableDescriptor",
    ) || str_eq(inner, "FGAmmoTypeSpreadshot") || str_eq(inner, "FGEquipmentDescriptor") || str_eq(
        inner,
        "FGPoleDescriptor",
    ) || str_eq(inner, "FGAmmoTypeInstantHit") {
        Some(NativeKind::ItemKind)
    } else if str_eq(inner, "FGRecipe") {
        Some(NativeKind::RecipeKind)
    } else if str_eq(inner, "FGBuildableManufacturer") || str_eq(
        inner,
        "FGBuildableManufacturerVariablePower",
    ) {
        Some(NativeKind::MachineKind)
    } else {
        Some(NativeKind::Ignored)
    }
}

// ---------------------------------------------------------------------------
// keyed collections as association sequences
// ---------------------------------------------------------------------------
/// Index of the first entry with key `k` at or after `from`, or `-1`.
pub open spec fn find_key<V>(m: Seq<(Seq<char>, V)>, from: int, k: Seq<char>) -> int
    decreases m.len() - from,
{
    if from < m.len() {
        if m[from].0 == k {
            from
        } else {
            find_key(m, from + 1, k)
        }
    } else {
        -1
    }
}

/// First index at or after `from` whose key is above `k`, or the length:
/// where a new key belongs in a sequence kept in ascending key order.
pub open spec fn lower_bound<V>(m: Seq<(Seq<char>, V)>, from: int, k: Seq<char>) -> int
    decreases m.len() - from,
{
    if from < m.len() {
        if str_lt(k, m[from].0) {
            from
        } else {
            lower_bound(m, from + 1, k)
        }
    } else {
        m.len() as int
    }
}

/// Insert-or-replace: the overwrite semantics of an ordered keyed map
/// built by repeated insertion, where a later record with the same key
/// wins and a new key enters at its place in ascending key order.
pub open spec fn spec_upsert<V>(m: Seq<(Seq<char>, V)>, k: Seq<char>, v: V) -> Seq<(Seq<char>, V)> {
    let i = find_key(m, 0, k);
    if i >= 0 {
        m.update(i, (k, v))
    } else {
        m.insert(lower_bound(m, 0, k), (k, v))
    }
}

/// No two entries share a key.
pub open spec fn unique_keys<V>(m: Seq<(Seq<char>, V)>) -> bool {
    forall|i: int, j: int|
        0 <= i < m.len() && 0 <= j < m.len() && i != j ==> m[i].0 != m[j].0
}

/// Keys stand in strictly ascending name order.
pub open spec fn sorted_keys<V>(m: Seq<(Seq<char>, V)>) -> bool {
    forall|i: int, j: int| 0 <= i < j < m.len() ==> str_lt(#[trigger] m[i].0, #[trigger] m[j].0)
}

/// `lower_bound` returns the first index whose key is above `k`.
pub proof fn lemma_lower_bound_at<V>(m: Seq<(Seq<char>, V)>, k: Seq<char>, from: int, j: int)
    requires
        0 <= from <= j <= m.len(),
        forall|i: int| from <= i < j ==> !str_lt(k, m[i].0),
        j < m.len() ==> str_lt(k, m[j].0),
    ensures
        lower_bound(m, from, k) == j,
    decreases j - from,
{
    if from < j {
        lemma_lower_bound_at(m, k, from + 1, j);
    }
}

/// Inserting a key above everything before `p` and (by transitivity from
/// the first entry at `p`) below everything from `p` on keeps the keys in
/// ascending order.
pub proof fn lemma_ordered_insert<V>(m: Seq<(Seq<char>, V)>, k: Seq<char>, v: V, p: int)
    requires
        0 <= p <= m.len(),
        sorted_keys(m),
        forall|i: int| 0 <= i < p ==> str_lt(#[trigger] m[i].0, k),
        p < m.len() ==> str_lt(k, m[p].0),
    ensures
        sorted_keys(m.insert(p, (k, v))),
{
    m.insert_ensures(p, (k, v));
    let n = m.insert(p, (k, v));
    assert forall|i: int| p <= i < m.len() implies str_lt(k, #[trigger] m[i].0) by {
        if i > p {
            lemma_str_lt_trans(k, m[p].0, m[i].0);
        }
    }
    assert forall|i: int, j: int| 0 <= i < j < n.len() implies str_lt(
        #[trigger] n[i].0,
        #[trigger] n[j].0,
    ) by {
        if j < p {
            assert(n[i] == m[i] && n[j] == m[j]);
        } else if j == p {
            assert(n[i] == m[i] && n[j].0 == k);
        } else {
            assert(n[j] == m[j - 1]);
            if i < p {
                assert(n[i] == m[i]);
                lemma_str_lt_trans(m[i].0, k, m[j - 1].0);
            } else if i == p {
                assert(n[i].0 == k);
            } else {
                assert(n[i] == m[i - 1]);
            }
        }
    }
}

/// Strictly ascending keys are in particular pairwise distinct.
pub proof fn lemma_sorted_unique<V>(m: Seq<(Seq<char>, V)>)
    requires
        sorted_keys(m),
    ensures
        unique_keys(m),
{
    assert forall|i: int, j: int|
        0 <= i < m.len() && 0 <= j < m.len() && i != j implies m[i].0 != m[j].0 by {
        lemma_str_lt_irrefl(m[i].0);
        if i < j {
            assert(str_lt(m[i].0, m[j].0));
        } else {
            assert(str_lt(m[j].0, m[i].0));
        }
    }
}

/// `find_key` returns the first match: if no entry before `j` matches and
/// `j` either matches or is the length, the search ends at `j` or fails.
pub proof fn lemma_find_key_at<V>(m: Seq<(Seq<char>, V)>, k: Seq<char>, from: int, j: int)
    requires
        0 <= from <= j <= m.len(),
        forall|i: int| from <= i < j ==> m[i].0 != k,
        j < m.len() ==> m[j].0 == k,
    ensures
        find_key(m, from, k) == if j < m.len() {
            j
        } else {
            -1
        },
    decreases j - from,
{
    if from < j {
        lemma_find_key_at(m, k, from + 1, j);
    }
}

// ---------------------------------------------------------------------------
// the catalog
// ---------------------------------------------------------------------------
/// The aggregate in-memory store: items, recipes and machines, each keyed
/// by its own class-name type. Built once, read-only afterwards.
#[derive(Debug)]
pub struct Classes {
    pub items: Vec<(ClassName<Item>, Item)>,
    pub recipes: Vec<(ClassName<Recipe>, Recipe)>,
    pub machine: Vec<(ClassName<Machine>, Machine)>,
}

/// The mathematical content of a catalog: three association sequences.
pub struct ClassesModel {
    pub items: Seq<(Seq<char>, (Seq<char>, StackSize))>,
    pub recipes: Seq<(Seq<char>, RecipeModel)>,
    pub machines: Seq<(Seq<char>, Seq<char>)>,
}

pub open spec fn items_model(v: Seq<(ClassName<Item>, Item)>) -> Seq<
    (Seq<char>, (Seq<char>, StackSize)),
> {
    Seq::new(v.len(), |i: int| (v[i].0@, (v[i].1.display_name@, v[i].1.stack_size)))
}

pub open spec fn recipes_model(v: Seq<(ClassName<Recipe>, Recipe)>) -> Seq<
    (Seq<char>, RecipeModel),
> {
    Seq::new(v.len(), |i: int| (v[i].0@, v[i].1@))
}

pub open spec fn machines_model(v: Seq<(ClassName<Machine>, Machine)>) -> Seq<
    (Seq<char>, Seq<char>),
> {
    Seq::new(v.len(), |i: int| (v[i].0@, v[i].1.display_name@))
}

impl View for Classes {
    type V = ClassesModel;

    open spec fn view(&self) -> ClassesModel {
        ClassesModel {
            items: items_model(self.items@),
            recipes: recipes_model(self.recipes@),
            machines: machines_model(self.machine@),
        }
    }
}

impl Classes {
    /// Every collection is keyed uniquely and every stored recipe is
    /// internally well-formed.
    pub open spec fn wf(self) -> bool {
        &&& unique_keys(self@.items)
        &&& unique_keys(self@.recipes)
        &&& unique_keys(self@.machines)
        &&& sorted_keys(self@.items)
        &&& sorted_keys(self@.recipes)
        &&& sorted_keys(self@.machines)
        &&& forall|i: int| 0 <= i < self.recipes@.len() ==> (#[trigger] self.recipes@[i].1).wf()
    }
}

fn upsert_item(items: &mut Vec<(ClassName<Item>, Item)>, key: ClassName<Item>, val: Item)
    ensures
        items_model(final(items)@) == spec_upsert(
            items_model(old(items)@),
            key@,
            (val.display_name@, val.stack_size),
        ),
        unique_keys(items_model(old(items)@)) && sorted_keys(items_model(old(items)@))
            ==> unique_keys(items_model(final(items)@)) && sorted_keys(
            items_model(final(items)@),
        ),
{
    let n: usize = items.len();
    let mut j: usize = 0;
    while j < n
        invariant
            n == items@.len(),
            j <= n,
            items@ == old(items)@,
            forall|i: int| 0 <= i < j ==> items@[i].0@ != key@,
        decreases n - j,
    {
        if str_eq(items[j].0.as_str(), key.as_str()) {
            proof {
                lemma_find_key_at(items_model(items@), key@, 0, j as int);
            }
            let ghost pre = items@;
            items[j] = (key, val);
            proof {
                let newm = items_model(items@);
                let oldm = items_model(pre);
                assert(newm =~= spec_upsert(oldm, key@, (val.display_name@, val.stack_size)));
                assert forall|a: int| 0 <= a < newm.len() implies newm[a].0 == oldm[a].0 by {}
                if unique_keys(oldm) && sorted_keys(oldm) {
                    assert forall|a: int, b: int|
                        0 <= a < newm.len() && 0 <= b < newm.len() && a != b implies newm[a].0
                        != newm[b].0 by {}
                    assert forall|a: int, b: int| 0 <= a < b < newm.len() implies str_lt(
                        #[trigger] newm[a].0,
                        #[trigger] newm[b].0,
                    ) by {
                        assert(str_lt(oldm[a].0, oldm[b].0));
                    }
                }
            }
            return ;
        }
        j += 1;
    }
    proof {
        lemma_find_key_at(items_model(items@), key@, 0, n as int);
    }
    // the key is new: find where it belongs in ascending key order
    let mut p: usize = 0;
    while p < n && !str_lt_exec(key.as_str(), items[p].0.as_str())
        invariant
            n == items@.len(),
            p <= n,
            items@ == old(items)@,
            forall|i: int| 0 <= i < p ==> !str_lt(key@, #[trigger] items@[i].0@),
        decreases n - p,
    {
        p += 1;
    }
    proof {
        lemma_lower_bound_at(items_model(items@), key@, 0, p as int);
        assert forall|i: int| 0 <= i < p implies str_lt(
            #[trigger] items_model(items@)[i].0,
            key@,
        ) by {
            if !str_lt(items@[i].0@, key@) {
                lemma_str_lt_connex(key@, items@[i].0@);
            }
        }
    }
    let ghost pre = items@;
    let ghost pairg = (key, val);
    let ghost valm = (val.display_name@, val.stack_size);
    proof {
        assert(pairg.1 == val && pairg.0 == key);
    }
    items.insert(p, (key, val));
    proof {
        let oldm = items_model(pre);
        let newm = items_model(items@);
        pre.insert_ensures(p as int, pairg);
        oldm.insert_ensures(p as int, (key@, valm));
        assert forall|a: int| 0 <= a < newm.len() implies newm[a] == oldm.insert(
            p as int,
            (key@, valm),
        )[a] by {
            if a < p {
                assert(items@[a] == pre[a]);
            } else if a == p {
                assert(items@[a] == pairg);
            } else {
                assert(items@[a] == pre[a - 1]);
            }
        }
        assert(newm =~= spec_upsert(oldm, key@, valm));
        if unique_keys(oldm) && sorted_keys(oldm) {
            lemma_ordered_insert(oldm, key@, valm, p as int);
            assert(sorted_keys(newm));
            lemma_sorted_unique(newm);
        }
    }
}

fn upsert_recipe(recipes: &mut Vec<(ClassName<Recipe>, Recipe)>, key: ClassName<Recipe>, val: Recipe)
    requires
        val.wf(),
    ensures
        recipes_model(final(recipes)@) == spec_upsert(recipes_model(old(recipes)@), key@, val@),
        unique_keys(recipes_model(old(recipes)@)) && sorted_keys(recipes_model(old(recipes)@))
            ==> unique_keys(recipes_model(final(recipes)@)) && sorted_keys(
            recipes_model(final(recipes)@),
        ),
        (forall|i: int|
            0 <= i < old(recipes)@.len() ==> (#[trigger] old(recipes)@[i].1).wf()) ==> forall|
            i: int,
        |
            0 <= i < final(recipes)@.len() ==> (#[trigger] final(recipes)@[i].1).wf(),
{
    let n: usize = recipes.len();
    let mut j: usize = 0;
    while j < n
        invariant
            n == recipes@.len(),
            j <= n,
            recipes@ == old(recipes)@,
            val.wf(),
            forall|i: int| 0 <= i < j ==> recipes@[i].0@ != key@,
        decreases n - j,
    {
        if str_eq(recipes[j].0.as_str(), key.as_str()) {
            proof {
                lemma_find_key_at(recipes_model(recipes@), key@, 0, j as int);
            }
            let ghost pre = recipes@;
            let ghost pairg = (key, val);
            proof {
                assert(pairg.1 == val && pairg.0 == key);
            }
            recipes[j] = (key, val);
            proof {
                let newm = recipes_model(recipes@);
                let oldm = recipes_model(pre);
                assert(newm =~= spec_upsert(oldm, key@, val@));
                assert forall|a: int| 0 <= a < newm.len() implies newm[a].0 == oldm[a].0 by {}
                if unique_keys(oldm) && sorted_keys(oldm) {
                    assert forall|a: int, b: int|
                        0 <= a < newm.len() && 0 <= b < newm.len() && a != b implies newm[a].0
                        != newm[b].0 by {}
                    assert forall|a: int, b: int| 0 <= a < b < newm.len() implies str_lt(
                        #[trigger] newm[a].0,
                        #[trigger] newm[b].0,
                    ) by {
                        assert(str_lt(oldm[a].0, oldm[b].0));
                    }
                }
                if forall|i: int| 0 <= i < pre.len() ==> (#[trigger] pre[i].1).wf() {
                    assert forall|i: int| 0 <= i < recipes@.len() implies (#[trigger] recipes@[
                        i
                    ].1).wf() by {
                        if i == j as int {
                            assert(recipes@[i] == pairg);
                            assert((pairg.1).wf());
                        } else {
                            assert(recipes@[i] == pre[i]);
                            assert((pre[i].1).wf());
                        }
                    }
                }
            }
            return ;
        }
        j += 1;
    }
    proof {
        lemma_find_key_at(recipes_model(recipes@), key@, 0, n as int);
    }
    // the key is new: find where it belongs in ascending key order
    let mut p: usize = 0;
    while p < n && !str_lt_exec(key.as_str(), recipes[p].0.as_str())
        invariant
            n == recipes@.len(),
            p <= n,
            recipes@ == old(recipes)@,
            forall|i: int| 0 <= i < p ==> !str_lt(key@, #[trigger] recipes@[i].0@),
        decreases n - p,
    {
        p += 1;
    }
    proof {
        lemma_lower_bound_at(recipes_model(recipes@), key@, 0, p as int);
        assert forall|i: int| 0 <= i < p implies str_lt(
            #[trigger] recipes_model(recipes@)[i].0,
            key@,
        ) by {
            if !str_lt(recipes@[i].0@, key@) {
                lemma_str_lt_connex(key@, recipes@[i].0@);
            }
        }
    }
    let ghost pre = recipes@;
    let ghost pairg = (key, val);
    let ghost valm = pairg.1@;
    proof {
        assert(pairg.1 == val && pairg.0 == key);
    }
    recipes.insert(p, (key, val));
    proof {
        let oldm = recipes_model(pre);
        let newm = recipes_model(recipes@);
        pre.insert_ensures(p as int, pairg);
        oldm.insert_ensures(p as int, (key@, valm));
        assert forall|a: int| 0 <= a < newm.len() implies newm[a] == oldm.insert(
            p as int,
            (key@, valm),
        )[a] by {
            if a < p {
                assert(recipes@[a] == pre[a]);
            } else if a == p {
                assert(recipes@[a] == pairg);
            } else {
                assert(recipes@[a] == pre[a - 1]);
            }
        }
        assert(newm =~= spec_upsert(oldm, key@, valm));
        if unique_keys(oldm) && sorted_keys(oldm) {
            lemma_ordered_insert(oldm, key@, valm, p as int);
            assert(sorted_keys(newm));
            lemma_sorted_unique(newm);
        }
        if forall|i: int| 0 <= i < pre.len() ==> (#[trigger] pre[i].1).wf() {
            assert forall|i: int| 0 <= i < recipes@.len() implies (#[trigger] recipes@[i].1).wf()
                by {
                if i < p {
                    assert(recipes@[i] == pre[i]);
                    assert((pre[i].1).wf());
                } else if i == p as int {
                    assert(recipes@[i] == pairg);
                    assert((pairg.1).wf());
                } else {
                    assert(recipes@[i] == pre[i - 1]);
                    assert((pre[i - 1].1).wf());
                }
            }
        }
    }
}

fn upsert_machine(machines: &mut Vec<(ClassName<Machine>, Machine)>, key: ClassName<Machine>, val: Machine)
    ensures
        machines_model(final(machines)@) == spec_upsert(
            machines_model(old(machines)@),
            key@,
            val.display_name@,
        ),
        unique_keys(machines_model(old(machines)@)) && sorted_keys(
            machines_model(old(machines)@),
        ) ==> unique_keys(machines_model(final(machines)@)) && sorted_keys(
            machines_model(final(machines)@),
        ),
{
    let n: usize = machines.len();
    let mut j: usize = 0;
    while j < n
        invariant
            n == machines@.len(),
            j <= n,
            machines@ == old(machines)@,
            forall|i: int| 0 <= i < j ==> machines@[i].0@ != key@,
        decreases n - j,
    {
        if str_eq(machines[j].0.as_str(), key.as_str()) {
            proof {
                lemma_find_key_at(machines_model(machines@), key@, 0, j as int);
            }
            let ghost pre = machines@;
            machines[j] = (key, val);
            proof {
                let newm = machines_model(machines@);
                let oldm = machines_model(pre);
                assert(newm =~= spec_upsert(oldm, key@, val.display_name@));
                assert forall|a: int| 0 <= a < newm.len() implies newm[a].0 == oldm[a].0 by {}
                if unique_keys(oldm) && sorted_keys(oldm) {
                    assert forall|a: int, b: int|
                        0 <= a < newm.len() && 0 <= b < newm.len() && a != b implies newm[a].0
                        != newm[b].0 by {}
                    assert forall|a: int, b: int| 0 <= a < b < newm.len() implies str_lt(
                        #[trigger] newm[a].0,
                        #[trigger] newm[b].0,
                    ) by {
                        assert(str_lt(oldm[a].0, oldm[b].0));
                    }
                }
            }
            return ;
        }
        j += 1;
    }
    proof {
        lemma_find_key_at(machines_model(machines@), key@, 0, n as int);
    }
    // the key is new: find where it belongs in ascending key order
    let mut p: usize = 0;
    while p < n && !str_lt_exec(key.as_str(), machines[p].0.as_str())
        invariant
            n == machines@.len(),
            p <= n,
            machines@ == old(machines)@,
            forall|i: int| 0 <= i < p ==> !str_lt(key@, #[trigger] machines@[i].0@),
        decreases n - p,
    {
        p += 1;
    }
    proof {
        lemma_lower_bound_at(machines_model(machines@), key@, 0, p as int);
        assert forall|i: int| 0 <= i < p implies str_lt(
            #[trigger] machines_model(machines@)[i].0,
            key@,
        ) by {
            if !str_lt(machines@[i].0@, key@) {
                lemma_str_lt_connex(key@, machines@[i].0@);
            }
        }
    }
    let ghost pre = machines@;
    let ghost pairg = (key, val);
    let ghost valm = pairg.1.display_name@;
    proof {
        assert(pairg.1 == val && pairg.0 == key);
    }
    machines.insert(p, (key, val));
    proof {
        let oldm = machines_model(pre);
        let newm = machines_model(machines@);
        pre.insert_ensures(p as int, pairg);
        oldm.insert_ensures(p as int, (key@, valm));
        assert forall|a: int| 0 <= a < newm.len() implies newm[a] == oldm.insert(
            p as int,
            (key@, valm),
        )[a] by {
            if a < p {
                assert(machines@[a] == pre[a]);
            } else if a == p {
                assert(machines@[a] == pairg);
            } else {
                assert(machines@[a] == pre[a - 1]);
            }
        }
        assert(newm =~= spec_upsert(oldm, key@, valm));
        if unique_keys(oldm) && sorted_keys(oldm) {
            lemma_ordered_insert(oldm, key@, valm, p as int);
            assert(sorted_keys(newm));
            lemma_sorted_unique(newm);
        }
    }
}

// ---------------------------------------------------------------------------
// the load fold
// ---------------------------------------------------------------------------
/// Folds the records of one collection (all of one kind) into the catalog
/// model, starting at record `i`.
pub open spec fn spec_load_coll(
    kind: NativeKind,
    cs: Seq<Class>,
    i: int,
    acc: ClassesModel,
) -> Result<ClassesModel, LoadError>
    decreases cs.len() - i,
{
    if i < 0 || i >= cs.len() || kind == NativeKind::Ignored {
        Ok(acc)
    } else {
        match kind {
            NativeKind::ItemKind => match spec_item(cs[i].members@) {
                Err(e) => Err(e),
                Ok(m) => spec_load_coll(
                    kind,
                    cs,
                    i + 1,
                    ClassesModel { items: spec_upsert(acc.items, cs[i].name@, m), ..acc },
                ),
            },
            NativeKind::RecipeKind => match spec_recipe(cs[i].members@) {
                Err(e) => Err(e),
                Ok(m) => spec_load_coll(
                    kind,
                    cs,
                    i + 1,
                    ClassesModel { recipes: spec_upsert(acc.recipes, cs[i].name@, m), ..acc },
                ),
            },
            NativeKind::MachineKind => match spec_machine(cs[i].members@) {
                Err(e) => Err(e),
                Ok(m) => spec_load_coll(
                    kind,
                    cs,
                    i + 1,
                    ClassesModel { machines: spec_upsert(acc.machines, cs[i].name@, m), ..acc },
                ),
            },
            NativeKind::Ignored => Ok(acc),
        }
    }
}

/// Folds whole collections into the catalog model, starting at collection
/// `ci`.
pub open spec fn spec_load_from(
    colls: Seq<ClassCollection>,
    ci: int,
    acc: ClassesModel,
) -> Result<ClassesModel, LoadError>
    decreases colls.len() - ci,
{
    if ci < 0 || ci >= colls.len() {
        Ok(acc)
    } else {
        match spec_classify(colls[ci].native_class@) {
            None => Err(LoadError::MalformedNativeClass),
            Some(kind) => match spec_load_coll(kind, colls[ci].classes@, 0, acc) {
                Err(e) => Err(e),
                Ok(acc2) => spec_load_from(colls, ci + 1, acc2),
            },
        }
    }
}

/// The empty catalog model.
pub open spec fn empty_model() -> ClassesModel {
    ClassesModel { items: Seq::empty(), recipes: Seq::empty(), machines: Seq::empty() }
}

/// What a whole export loads to: the fold over all its collections, or the
/// first hard error.
pub open spec fn spec_load(colls: Seq<ClassCollection>) -> Result<ClassesModel, LoadError> {
    spec_load_from(colls, 0, empty_model())
}

fn load_coll(kind: NativeKind, cs: &Vec<Class>, i: usize, acc: Classes) -> (r: Result<
    Classes,
    LoadError,
>)
    requires
        i <= cs@.len(),
        acc.wf(),
    ensures
        match (r, spec_load_coll(kind, cs@, i as int, acc@)) {
            (Ok(c), Ok(m)) => c@ == m && c.wf(),
            (Err(e1), Err(e2)) => e1 == e2,
            _ => false,
        },
    decreases cs@.len() - i,
{
    if i == cs.len() {
        return Ok(acc);
    }
    let mut acc = acc;
    match kind {
        NativeKind::Ignored => Ok(acc),
        NativeKind::ItemKind => {
            match Item::from_class(&cs[i]) {
                Err(e) => Err(e),
                Ok(it) => {
                    let key: ClassName<Item> = ClassName::new(cs[i].name.clone());
                    upsert_item(&mut acc.items, key, it);
                    load_coll(kind, cs, i + 1, acc)
                },
            }
        },
        NativeKind::RecipeKind => {
            match Recipe::from_class(&cs[i]) {
                Err(e) => Err(e),
                Ok(rec) => {
                    let key: ClassName<Recipe> = ClassName::new(cs[i].name.clone());
                    upsert_recipe(&mut acc.recipes, key, rec);
                    load_coll(kind, cs, i + 1, acc)
                },
            }
        },
        NativeKind::MachineKind => {
            match Machine::from_class(&cs[i]) {
                Err(e) => Err(e),
                Ok(mc) => {
                    let key: ClassName<Machine> = ClassName::new(cs[i].name.clone());
                    upsert_machine(&mut acc.machine, key, mc);
                    load_coll(kind, cs, i + 1, acc)
                },
            }
        },
    }
}

fn load_from(colls: &Vec<ClassCollection>, ci: usize, acc: Classes) -> (r: Result<
    Classes,
    LoadError,
>)
    requires
        ci <= colls@.len(),
        acc.wf(),
    ensures
        match (r, spec_load_from(colls@, ci as int, acc@)) {
            (Ok(c), Ok(m)) => c@ == m && c.wf(),
            (Err(e1), Err(e2)) => e1 == e2,
            _ => false,
        },
    decreases colls@.len() - ci,
{
    if ci == colls.len() {
        return Ok(acc);
    }
    match classify(colls[ci].native_class.as_str()) {
        None => Err(LoadError::MalformedNativeClass),
        Some(kind) => {
            match load_coll(kind, &colls[ci].classes, 0, acc) {
                Err(e) => Err(e),
                Ok(acc2) => load_from(colls, ci + 1, acc2),
            }
        },
    }
}

impl Classes {
    /// Builds the catalog from the export's class collections in one pass.
    ///
    /// Returns exactly the fold [`spec_load`] denotes: every recognized
    /// record classified and added (later records overwrite earlier ones of
    /// the same key), unrecognized kinds dropped, and the first hard error
    /// aborting the whole load.
    pub fn load(collections: &Vec<ClassCollection>) -> (r: Result<Classes, LoadError>)
        ensures
            match (r, spec_load(collections@)) {
                (Ok(c), Ok(m)) => c@ == m && c.wf(),
                (Err(e1), Err(e2)) => e1 == e2,
                _ => false,
            },
    {
        let acc = Classes { items: Vec::new(), recipes: Vec::new(), machine: Vec::new() };
        proof {
            assert(acc@.items =~= empty_model().items);
            assert(acc@.recipes =~= empty_model().recipes);
            assert(acc@.machines =~= empty_model().machines);
        }
        load_from(collections, 0, acc)
    }
}

/// A collection whose native type is recognized but outside this domain
/// adds nothing to the catalog and raises no error: the fold across it
/// returns the accumulator unchanged.
pub proof fn lemma_ignored_collection_is_noop(
    colls: Seq<ClassCollection>,
    ci: int,
    acc: ClassesModel,
)
    requires
        0 <= ci < colls.len(),
        spec_classify(colls[ci].native_class@) == Some(NativeKind::Ignored),
    ensures
        spec_load_from(colls, ci, acc) == spec_load_from(colls, ci + 1, acc),
{
    assert(spec_load_coll(NativeKind::Ignored, colls[ci].classes@, 0, acc) == Ok::<
        ClassesModel,
        LoadError,
    >(acc));
}

} // verus!
