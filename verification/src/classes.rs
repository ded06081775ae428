//! The typed domain entities and the builders that map one raw class record
//! (a name plus a flat field mapping) into an Item, Machine or Recipe.

use vstd::prelude::*;

verus! {

use crate::names::ClassName;
use crate::ratio::{Ratio, fits_i64};
use crate::record::{
    spec_item_amounts, spec_class_names, spec_rational, parse_item_amount_list,
    parse_class_name_list, parse_rational, str_eq, amounts_view,
};

// ---------------------------------------------------------------------------
// raw records
// ---------------------------------------------------------------------------
/// One raw class record from the export: a name and a flat mapping from
/// field name to field value (all values already plain text).
pub struct Class {
    pub name: String,
    pub members: Vec<(String, String)>,
}

/// One class collection from the export: a native-type identifier and the
/// raw records declared under it.
pub struct ClassCollection {
    pub native_class: String,
    pub classes: Vec<Class>,
}

/// The value of the first field named `key` at or after index `from`.
pub open spec fn field_from(ms: Seq<(String, String)>, from: int, key: Seq<char>) -> Option<
    Seq<char>,
>
    decreases ms.len() - from,
{
    if from < ms.len() {
        if ms[from].0@ == key {
            Some(ms[from].1@)
        } else {
            field_from(ms, from + 1, key)
        }
    } else {
        None
    }
}

fn field_lookup<'a>(ms: &'a Vec<(String, String)>, from: usize, key: &str) -> (r: Option<
    &'a String,
>)
    requires
        from <= ms@.len(),
    ensures
        match r {
            Some(v) => field_from(ms@, from as int, key@) == Some(v@),
            None => field_from(ms@, from as int, key@) is None,
        },
    decreases ms@.len() - from,
{
    if from == ms.len() {
        None
    } else if str_eq(ms[from].0.as_str(), key) {
        Some(&ms[from].1)
    } else {
        field_lookup(ms, from + 1, key)
    }
}

impl Class {
    /// Presence-checked lookup of a plain string field.
    pub fn get_string(&self, member: &str) -> (r: Option<&String>)
        ensures
            match r {
                Some(v) => field_from(self.members@, 0, member@) == Some(v@),
                None => field_from(self.members@, 0, member@) is None,
            },
    {
        field_lookup(&self.members, 0, member)
    }
}

// ---------------------------------------------------------------------------
// errors
// ---------------------------------------------------------------------------
/// The hard errors that abort a catalog load: the export no longer matches
/// the understood format.
#[derive(Clone, Copy, Debug, PartialEq, Eq, Structural)]
pub enum LoadError {
    /// A required field is absent on a recognized entity type.
    MissingField,
    /// A composite or numeric field value failed to parse.
    MalformedField,
    /// A stack-size token outside the fixed enumeration.
    UnknownStackSize,
    /// A native-type string without the expected wrapper text.
    MalformedNativeClass,
}

// ---------------------------------------------------------------------------
// items
// ---------------------------------------------------------------------------
/// Packaging-capacity category of an item; `Fluid` is measured
/// volumetrically (internally scaled by 1000 sub-units per cubic meter).
#[derive(Clone, Copy, Debug, PartialEq, Eq, Structural)]
pub enum StackSize {
    One,
    Small,
    Medium,
    Big,
    Huge,
    Fluid,
}

/// The stack size denoted by a field token, if it is one of the fixed set.
pub open spec fn spec_stack_size(s: Seq<char>) -> Option<StackSize> {
    if s == "SS_ONE"@ {
        Some(StackSize::One)
    } else if s == "SS_SMALL"@ {
        Some(StackSize::Small)
    } else if s == "SS_MEDIUM"@ {
        Some(StackSize::Medium)
    } else if s == "SS_BIG"@ {
        Some(StackSize::Big)
    } else if s == "SS_HUGE"@ {
        Some(StackSize::Huge)
    } else if s == "SS_FLUID"@ {
        Some(StackSize::Fluid)
    } else {
        None
    }
}

fn stack_size_of(s: &str) -> (r: Option<StackSize>)
    ensures
        r == spec_stack_size(s@),
{
    if str_eq(s, "SS_ONE") {
        Some(StackSize::One)
    } else if str_eq(s, "SS_SMALL") {
        Some(StackSize::Small)
    } else if str_eq(s, "SS_MEDIUM") {
        Some(StackSize::Medium)
    } else if str_eq(s, "SS_BIG") {
        Some(StackSize::Big)
    } else if str_eq(s, "SS_HUGE") {
        Some(StackSize::Huge)
    } else if str_eq(s, "SS_FLUID") {
        Some(StackSize::Fluid)
    } else {
        None
    }
}

#[derive(Debug)]
pub struct Item {
    pub display_name: String,
    pub stack_size: StackSize,
}

/// The item denoted by a raw record's fields, or the load error it raises.
pub open spec fn spec_item(ms: Seq<(String, String)>) -> Result<(Seq<char>, StackSize), LoadError> {
    match field_from(ms, 0, "mDisplayName"@) {
        None => Err(LoadError::MissingField),
        Some(dn) => match field_from(ms, 0, "mStackSize"@) {
            None => Err(LoadError::MissingField),
            Some(ss) => match spec_stack_size(ss) {
                None => Err(LoadError::UnknownStackSize),
                Some(sz) => Ok((dn, sz)),
            },
        },
    }
}

impl Item {
    pub fn from_class(c: &Class) -> (r: Result<Item, LoadError>)
        ensures
            match (r, spec_item(c.members@)) {
                (Ok(it), Ok((dn, sz))) => it.display_name@ == dn && it.stack_size == sz,
                (Err(e1), Err(e2)) => e1 == e2,
                _ => false,
            },
    {
        let dn: &String = match field_lookup(&c.members, 0, "mDisplayName") {
            None => {
                return Err(LoadError::MissingField);
            },
            Some(v) => v,
        };
        let ss: &String = match field_lookup(&c.members, 0, "mStackSize") {
            None => {
                return Err(LoadError::MissingField);
            },
            Some(v) => v,
        };
        match stack_size_of(ss.as_str()) {
            None => Err(LoadError::UnknownStackSize),
            Some(sz) => Ok(Item { display_name: dn.clone(), stack_size: sz }),
        }
    }
}

/// The display unit of an item's throughput: fluids are reported in cubic
/// meters, everything else in plain counts.
pub fn unit(item: &Item) -> (r: &'static str)
    ensures
        item.stack_size == StackSize::Fluid ==> r@ == " m³"@,
        item.stack_size != StackSize::Fluid ==> r@ == ""@,
{
    if item.stack_size == StackSize::Fluid {
        " m³"
    } else {
        ""
    }
}

// ---------------------------------------------------------------------------
// machines
// ---------------------------------------------------------------------------
#[derive(Debug)]
pub struct Machine {
    pub display_name: String,
}

/// The machine denoted by a raw record's fields, or the load error.
pub open spec fn spec_machine(ms: Seq<(String, String)>) -> Result<Seq<char>, LoadError> {
    match field_from(ms, 0, "mDisplayName"@) {
        None => Err(LoadError::MissingField),
        Some(dn) => Ok(dn),
    }
}

impl Machine {
    pub fn from_class(c: &Class) -> (r: Result<Machine, LoadError>)
        ensures
            match (r, spec_machine(c.members@)) {
                (Ok(m), Ok(dn)) => m.display_name@ == dn,
                (Err(e1), Err(e2)) => e1 == e2,
                _ => false,
            },
    {
        match field_lookup(&c.members, 0, "mDisplayName") {
            None => Err(LoadError::MissingField),
            Some(dn) => Ok(Machine { display_name: dn.clone() }),
        }
    }
}

// ---------------------------------------------------------------------------
// item-amount lists and class-name sets as typed values
// ---------------------------------------------------------------------------
/// An ordered list of (item name, per-cycle amount) pairs.
#[derive(Debug)]
pub struct ItemAmounts(pub Vec<(ClassName<Item>, i64)>);

impl View for ItemAmounts {
    type V = Seq<(Seq<char>, i64)>;

    open spec fn view(&self) -> Seq<(Seq<char>, i64)> {
        Seq::new(self.0@.len(), |i: int| (self.0@[i].0@, self.0@[i].1))
    }
}

impl ItemAmounts {
    /// Parses an item-amount field value; the result is exactly the list the
    /// grammar [`spec_item_amounts`] denotes, `None` exactly on the inputs
    /// it rejects.
    pub fn parse(s: &str) -> (r: Option<ItemAmounts>)
        ensures
            r is Some <==> spec_item_amounts(s@) is Some,
            r is Some ==> r->Some_0@ == spec_item_amounts(s@)->Some_0,
    {
        let v: Vec<(String, i64)> = match parse_item_amount_list(s) {
            None => {
                return None;
            },
            Some(v) => v,
        };
        let n: usize = v.len();
        let mut out: Vec<(ClassName<Item>, i64)> = Vec::new();
        let mut k: usize = 0;
        while k < n
            invariant
                k <= n,
                n == v@.len(),
                out@.len() == k,
                forall|i: int|
                    0 <= i < k ==> out@[i].0@ == v@[i].0@ && out@[i].1 == v@[i].1,
            decreases n - k,
        {
            let nm: String = v[k].0.clone();
            let amt: i64 = v[k].1;
            out.push((ClassName::new(nm), amt));
            k += 1;
        }
        let ia = ItemAmounts(out);
        proof {
            assert(ia@ =~= amounts_view(v@));
        }
        Some(ia)
    }
}

/// A deduplicated, order-irrelevant set of class names, stored as a vector
/// without duplicates. Its view is the set of identifier texts.
#[derive(Debug)]
pub struct ClassSet<T>(pub Vec<ClassName<T>>);

impl<T> View for ClassSet<T> {
    type V = Set<Seq<char>>;

    open spec fn view(&self) -> Set<Seq<char>> {
        Set::new(|n: Seq<char>| exists|i: int| 0 <= i < self.0@.len() && self.0@[i]@ == n)
    }
}

/// Some element of `v` is the name `nm`.
pub open spec fn has_name<T>(v: Seq<ClassName<T>>, nm: Seq<char>) -> bool {
    exists|i: int| 0 <= i < v.len() && v[i]@ == nm
}

/// Some of the first `k` elements of `v` views to `nm`.
pub open spec fn has_str<T: View<V = Seq<char>>>(v: Seq<T>, k: int, nm: Seq<char>) -> bool {
    exists|j: int| 0 <= j < k && v[j]@ == nm
}

/// Is some element of `v` the name `nm`?
pub(crate) fn contains_name<T>(v: &Vec<ClassName<T>>, nm: &str) -> (b: bool)
    ensures
        b == has_name(v@, nm@),
{
    let n: usize = v.len();
    let mut j: usize = 0;
    while j < n
        invariant
            j <= n,
            n == v@.len(),
            forall|i: int| 0 <= i < j ==> v@[i]@ != nm@,
        decreases n - j,
    {
        if str_eq(v[j].as_str(), nm) {
            return true;
        }
        j += 1;
    }
    proof {
        if has_name(v@, nm@) {
            let i = choose|i: int| 0 <= i < v@.len() && v@[i]@ == nm@;
            assert(v@[i]@ != nm@);
        }
    }
    false
}

impl<T> ClassSet<T> {
    /// No two stored names are equal.
    pub open spec fn wf(self) -> bool {
        forall|i: int, j: int|
            0 <= i < self.0@.len() && 0 <= j < self.0@.len() && i != j ==> self.0@[i]@
                != self.0@[j]@
    }

    /// Parses a class-name-set field value; the result is exactly the set of
    /// names the grammar [`spec_class_names`] lists (duplicates collapse,
    /// source order irrelevant), `None` exactly on the inputs it rejects.
    pub fn parse(s: &str) -> (r: Option<ClassSet<T>>)
        ensures
            r is Some <==> spec_class_names(s@) is Some,
            r is Some ==> r->Some_0.wf() && r->Some_0@ == spec_class_names(s@)->Some_0.to_set(),
    {
        let names: Vec<String> = match parse_class_name_list(s) {
            None => {
                return None;
            },
            Some(v) => v,
        };
        let n: usize = names.len();
        let mut out: Vec<ClassName<T>> = Vec::new();
        let mut k: usize = 0;
        while k < n
            invariant
                k <= n,
                n == names@.len(),
                forall|i: int, j: int|
                    0 <= i < out@.len() && 0 <= j < out@.len() && i != j ==> out@[i]@ != out@[j]@,
                forall|nm: Seq<char>| #[trigger] has_name(out@, nm) <==> has_str(names@, k as int, nm),
            decreases n - k,
        {
            let ghost out_old = out@;
            if !contains_name(&out, names[k].as_str()) {
                out.push(ClassName::new(names[k].clone()));
            }
            k += 1;
            proof {
                let kk = k as int - 1;
                assert forall|nm: Seq<char>| #[trigger]
                    has_name(out@, nm) <==> has_str(names@, k as int, nm) by {
                    assert(has_name(out_old, nm) <==> has_str(names@, kk, nm));
                    if has_name(out@, nm) {
                        let i = choose|i: int| 0 <= i < out@.len() && out@[i]@ == nm;
                        if i < out_old.len() {
                            assert(out_old[i]@ == nm);
                            assert(has_name(out_old, nm));
                            let j = choose|j: int| 0 <= j < kk && names@[j]@ == nm;
                            assert(0 <= j < k as int && names@[j]@ == nm);
                        } else {
                            assert(out@[i]@ == names@[kk]@);
                            assert(0 <= kk < k as int && names@[kk]@ == nm);
                        }
                        assert(has_str(names@, k as int, nm));
                    }
                    if has_str(names@, k as int, nm) {
                        let j = choose|j: int| 0 <= j < k && names@[j]@ == nm;
                        if j < kk {
                            assert(0 <= j < kk && names@[j]@ == nm);
                            assert(has_str(names@, kk, nm));
                            let i = choose|i: int| 0 <= i < out_old.len() && out_old[i]@ == nm;
                            assert(out@[i]@ == nm);
                        } else {
                            if has_name(out_old, nm) {
                                let i = choose|i: int|
                                    0 <= i < out_old.len() && out_old[i]@ == nm;
                                assert(out@[i]@ == nm);
                            } else {
                                assert(out@[out@.len() - 1]@ == nm);
                            }
                        }
                        assert(has_name(out@, nm));
                    }
                }
            }
        }
        let cs = ClassSet(out);
        proof {
            let sp = spec_class_names(s@)->Some_0;
            assert forall|nm: Seq<char>| cs@.contains(nm) <==> sp.to_set().contains(nm) by {
                assert(cs@.contains(nm) == has_name(out@, nm));
                assert(sp.to_set().contains(nm) == sp.contains(nm));
                assert(forall|j: int| 0 <= j < n ==> names@[j]@ == sp[j]);
                if sp.contains(nm) {
                    let j = choose|j: int| 0 <= j < sp.len() && sp[j] == nm;
                    assert(names@[j]@ == nm);
                    assert(has_str(names@, n as int, nm));
                }
                if has_str(names@, n as int, nm) {
                    let j = choose|j: int| 0 <= j < n && names@[j]@ == nm;
                    assert(sp[j] == nm);
                }
            }
            assert(cs@ =~= sp.to_set());
        }
        Some(cs)
    }
}

// ---------------------------------------------------------------------------
// recipes
// ---------------------------------------------------------------------------
/// One production recipe: what it is made in, what one execution cycle
/// consumes and produces, and how long a cycle takes (exact seconds).
#[derive(Debug)]
pub struct Recipe {
    pub display_name: String,
    pub produced_in: ClassSet<Machine>,
    pub ingredients: ItemAmounts,
    pub product: ItemAmounts,
    pub manufactoring_duration: Ratio,
}

/// The mathematical content of a recipe.
pub struct RecipeModel {
    pub display: Seq<char>,
    pub produced_in: Set<Seq<char>>,
    pub ingredients: Seq<(Seq<char>, i64)>,
    pub product: Seq<(Seq<char>, i64)>,
    pub duration: Ratio,
}

impl View for Recipe {
    type V = RecipeModel;

    open spec fn view(&self) -> RecipeModel {
        RecipeModel {
            display: self.display_name@,
            produced_in: self.produced_in@,
            ingredients: self.ingredients@,
            product: self.product@,
            duration: self.manufactoring_duration,
        }
    }
}

/// The recipe denoted by a raw record's fields, or the load error it raises.
pub open spec fn spec_recipe(ms: Seq<(String, String)>) -> Result<RecipeModel, LoadError> {
    match field_from(ms, 0, "mDisplayName"@) {
        None => Err(LoadError::MissingField),
        Some(dn) => match field_from(ms, 0, "mProducedIn"@) {
            None => Err(LoadError::MissingField),
            Some(pi) => match spec_class_names(pi) {
                None => Err(LoadError::MalformedField),
                Some(names) => match field_from(ms, 0, "mIngredients"@) {
                    None => Err(LoadError::MissingField),
                    Some(ing) => match spec_item_amounts(ing) {
                        None => Err(LoadError::MalformedField),
                        Some(ings) => match field_from(ms, 0, "mProduct"@) {
                            None => Err(LoadError::MissingField),
                            Some(pr) => match spec_item_amounts(pr) {
                                None => Err(LoadError::MalformedField),
                                Some(prods) => match field_from(ms, 0, "mManufactoringDuration"@) {
                                    None => Err(LoadError::MissingField),
                                    Some(dv) => match spec_rational(dv) {
                                        None => Err(LoadError::MalformedField),
                                        Some((n, d)) => {
                                            if fits_i64(n) && fits_i64(d) {
                                                Ok(
                                                    RecipeModel {
                                                        display: dn,
                                                        produced_in: names.to_set(),
                                                        ingredients: ings,
                                                        product: prods,
                                                        duration: (Ratio {
                                                            num: n as i64,
                                                            den: d as i64,
                                                        }),
                                                    },
                                                )
                                            } else {
                                                Err(LoadError::MalformedField)
                                            }
                                        },
                                    },
                                },
                            },
                        },
                    },
                },
            },
        },
    }
}

impl Recipe {
    /// The stored machine set has no duplicates and the duration has a
    /// positive denominator.
    pub open spec fn wf(self) -> bool {
        self.produced_in.wf() && self.manufactoring_duration.wf()
    }

    pub fn from_class(c: &Class) -> (r: Result<Recipe, LoadError>)
        ensures
            match (r, spec_recipe(c.members@)) {
                (Ok(rec), Ok(m)) => rec@ == m && rec.wf(),
                (Err(e1), Err(e2)) => e1 == e2,
                _ => false,
            },
    {
        let dn: String = match field_lookup(&c.members, 0, "mDisplayName") {
            None => {
                return Err(LoadError::MissingField);
            },
            Some(v) => v.clone(),
        };
        let pi: Option<&String> = field_lookup(&c.members, 0, "mProducedIn");
        let produced_in: ClassSet<Machine> = match pi {
            None => {
                return Err(LoadError::MissingField);
            },
            Some(v) => match ClassSet::parse(v.as_str()) {
                None => {
                    return Err(LoadError::MalformedField);
                },
                Some(cs) => cs,
            },
        };
        let ing: Option<&String> = field_lookup(&c.members, 0, "mIngredients");
        let ingredients: ItemAmounts = match ing {
            None => {
                return Err(LoadError::MissingField);
            },
            Some(v) => match ItemAmounts::parse(v.as_str()) {
                None => {
                    return Err(LoadError::MalformedField);
                },
                Some(ia) => ia,
            },
        };
        let pr: Option<&String> = field_lookup(&c.members, 0, "mProduct");
        let product: ItemAmounts = match pr {
            None => {
                return Err(LoadError::MissingField);
            },
            Some(v) => match ItemAmounts::parse(v.as_str()) {
                None => {
                    return Err(LoadError::MalformedField);
                },
                Some(ia) => ia,
            },
        };
        let dv: Option<&String> = field_lookup(&c.members, 0, "mManufactoringDuration");
        let duration: Ratio = match dv {
            None => {
                return Err(LoadError::MissingField);
            },
            Some(v) => match parse_rational(v.as_str()) {
                None => {
                    return Err(LoadError::MalformedField);
                },
                Some(rt) => rt,
            },
        };
        Ok(
            Recipe {
                display_name: dn,
                produced_in,
                ingredients,
                product,
                manufactoring_duration: duration,
            },
        )
    }
}

} // verus!
