use factory_ratio::{
    Class, ClassCollection, Classes, LoadError, QueryError, Ratio, StackSize,
};
use factory_ratio::classes::unit;

const ITEM_NATIVE: &str = "/Script/CoreUObject.Class'/Script/FactoryGame.FGItemDescriptor'";
const MACHINE_NATIVE: &str =
    "/Script/CoreUObject.Class'/Script/FactoryGame.FGBuildableManufacturer'";
const RECIPE_NATIVE: &str = "/Script/CoreUObject.Class'/Script/FactoryGame.FGRecipe'";

fn class(name: &str, members: &[(&str, &str)]) -> Class {
    Class {
        name: name.to_string(),
        members: members
            .iter()
            .map(|(k, v)| (k.to_string(), v.to_string()))
            .collect(),
    }
}

fn coll(native: &str, classes: Vec<Class>) -> ClassCollection {
    ClassCollection {
        native_class: native.to_string(),
        classes,
    }
}

/// One item, one machine, one recipe: 3 IronIngot -> 2 IronPlate in 6 s.
fn small_catalog() -> Classes {
    let collections = vec![
        coll(
            ITEM_NATIVE,
            vec![
                class(
                    "IronPlate",
                    &[("mDisplayName", "Iron Plate"), ("mStackSize", "SS_MEDIUM")],
                ),
                class(
                    "IronIngot",
                    &[("mDisplayName", "Iron Ingot"), ("mStackSize", "SS_MEDIUM")],
                ),
            ],
        ),
        coll(
            MACHINE_NATIVE,
            vec![class("Constructor", &[("mDisplayName", "Constructor")])],
        ),
        coll(
            RECIPE_NATIVE,
            vec![class(
                "Recipe_IronPlate",
                &[
                    ("mDisplayName", "Iron Plate"),
                    ("mProducedIn", "(\"/Game/Build.Constructor\")"),
                    (
                        "mIngredients",
                        "(ItemClass=\"/Game/Iron.IronIngot'\",Amount=3)",
                    ),
                    ("mProduct", "(ItemClass=\"/Game/Iron.IronPlate'\",Amount=2)"),
                    ("mManufactoringDuration", "6"),
                ],
            )],
        ),
    ];
    Classes::load(&collections).unwrap()
}

#[test]
fn end_to_end_iron_plate_at_60_per_minute() {
    let classes = small_catalog();
    let plans = classes.query("Iron Plate", Ratio::new(60, 1)).unwrap();
    assert_eq!(plans.len(), 1);
    let plan = &plans[0];
    assert_eq!(plan.recipe_display, "Iron Plate");
    assert_eq!(plan.machine_display, "Constructor");
    // production rate 2/6 per second; parallelism (60/60)/(1/3) = 3
    assert_eq!(plan.parallelism, Ratio::new(3, 1));
    assert_eq!(plan.machines, 3);
    assert_eq!(plan.overclock, Ratio::new(1, 1));
    // machines * overclock == parallelism, exactly
    let prod = Ratio::from_int(plan.machines).mul(&plan.overclock).unwrap();
    assert_eq!(prod, plan.parallelism);
    // ingredient throughput: 3 * (60/6) * 3 = 90 per minute, 30 per machine
    assert_eq!(plan.ingredient_rates.len(), 1);
    assert_eq!(plan.ingredient_rates[0].0.as_str(), "IronIngot");
    assert_eq!(plan.ingredient_rates[0].1, Ratio::new(90, 1));
    assert_eq!(plan.ingredient_rates[0].2, Ratio::new(30, 1));
    // product throughput: 3 * (60/6) * 2 = 60 per minute, 20 per machine
    assert_eq!(plan.product_rates[0].0.as_str(), "IronPlate");
    assert_eq!(plan.product_rates[0].1, Ratio::new(60, 1));
    assert_eq!(plan.product_rates[0].2, Ratio::new(20, 1));
}

#[test]
fn fractional_parallelism_rounds_machines_up() {
    let classes = small_catalog();
    // 50/min of Iron Plate: parallelism = (50/60)/(1/3) = 5/2
    let plans = classes.query("Iron Plate", Ratio::new(50, 1)).unwrap();
    let plan = &plans[0];
    assert_eq!(plan.parallelism, Ratio::new(5, 2));
    assert_eq!(plan.machines, 3);
    assert_eq!(plan.overclock, Ratio::new(5, 6));
    let prod = Ratio::from_int(plan.machines).mul(&plan.overclock).unwrap();
    assert_eq!(prod, plan.parallelism);
    // overclock lies in (0, 1]
    assert!(plan.overclock.num > 0);
    assert!((plan.overclock.num as i128) <= plan.overclock.den as i128);
}

#[test]
fn negative_rate_searches_by_ingredient() {
    let classes = small_catalog();
    // -90/min of Iron Ingot: the recipe consumes 3 per 6 s cycle, 0.5/s.
    // parallelism = (90/60)/(1/2) = 3
    let plans = classes.query("Iron Ingot", Ratio::new(-90, 1)).unwrap();
    assert_eq!(plans.len(), 1);
    let plan = &plans[0];
    assert_eq!(plan.machines, 3);
    assert_eq!(plan.overclock, Ratio::new(1, 1));
    // positive rate for the same item matches nothing: no recipe produces it
    assert_eq!(
        classes.query("Iron Ingot", Ratio::new(90, 1)).unwrap_err(),
        QueryError::NoMatch
    );
}

#[test]
fn zero_rate_is_rejected() {
    let classes = small_catalog();
    assert_eq!(
        classes.query("Iron Plate", Ratio::new(0, 1)).unwrap_err(),
        QueryError::ZeroRate
    );
}

#[test]
fn unknown_item_is_rejected() {
    let classes = small_catalog();
    assert_eq!(
        classes.query("Bogus", Ratio::new(60, 1)).unwrap_err(),
        QueryError::UnknownItem
    );
}

#[test]
fn item_lookup_is_case_insensitive_and_plural_tolerant() {
    let classes = small_catalog();
    let a = classes.find_item("iron plate").unwrap();
    let b = classes.find_item("Iron Plate").unwrap();
    let c = classes.find_item("iron plates").unwrap();
    assert_eq!(a, b);
    assert_eq!(b, c);
    assert!(classes.find_item("iron platess").is_none());
}

#[test]
fn fluid_rates_are_in_cubic_meters_per_minute() {
    let collections = vec![
        coll(
            ITEM_NATIVE,
            vec![class(
                "Water",
                &[("mDisplayName", "Water"), ("mStackSize", "SS_FLUID")],
            )],
        ),
        coll(
            MACHINE_NATIVE,
            vec![class("Extractor", &[("mDisplayName", "Extractor")])],
        ),
        coll(
            RECIPE_NATIVE,
            vec![class(
                "Recipe_Water",
                &[
                    ("mDisplayName", "Water"),
                    ("mProducedIn", "(\"/Game/Build.Extractor\")"),
                    ("mIngredients", ""),
                    ("mProduct", "(ItemClass=\"/Game/W.Water'\",Amount=2000)"),
                    ("mManufactoringDuration", "2"),
                ],
            )],
        ),
    ];
    let classes = Classes::load(&collections).unwrap();
    // 60 m3/min is 60000 internal units/min = 1000/s; the recipe makes
    // 2000 units per 2 s = 1000/s, so exactly one machine at full clock.
    let plans = classes.query("Water", Ratio::new(60, 1)).unwrap();
    let plan = &plans[0];
    assert_eq!(plan.machines, 1);
    assert_eq!(plan.overclock, Ratio::new(1, 1));
    // the reported product rate is scaled back to cubic meters per minute
    assert_eq!(plan.product_rates[0].1, Ratio::new(60, 1));
    let idx = classes.find_item("Water").unwrap();
    assert_eq!(classes.items[idx].1.stack_size, StackSize::Fluid);
    assert_eq!(unit(&classes.items[idx].1), " m\u{b3}");
    let plate = small_catalog();
    let pidx = plate.find_item("Iron Plate").unwrap();
    assert_eq!(unit(&plate.items[pidx].1), "");
}

#[test]
fn recipe_without_known_machine_is_filtered() {
    let collections = vec![
        coll(
            ITEM_NATIVE,
            vec![class(
                "IronPlate",
                &[("mDisplayName", "Iron Plate"), ("mStackSize", "SS_MEDIUM")],
            )],
        ),
        coll(
            RECIPE_NATIVE,
            vec![class(
                "Recipe_IronPlate",
                &[
                    ("mDisplayName", "Iron Plate"),
                    ("mProducedIn", "(\"/Game/Build.WorkBench\")"),
                    ("mIngredients", ""),
                    ("mProduct", "(ItemClass=\"/Game/Iron.IronPlate'\",Amount=2)"),
                    ("mManufactoringDuration", "6"),
                ],
            )],
        ),
    ];
    let classes = Classes::load(&collections).unwrap();
    // The only matching recipe resolves to no catalog machine, so it is
    // dropped silently: zero rows by design, not the no-match error.
    let plans = classes.query("Iron Plate", Ratio::new(60, 1)).unwrap();
    assert_eq!(plans.len(), 0);
    // The no-match error is reserved for an item no recipe mentions: this
    // catalog has no recipe consuming Iron Plate.
    assert_eq!(
        classes.query("Iron Plate", Ratio::new(-60, 1)).unwrap_err(),
        QueryError::NoMatch
    );
}

#[test]
fn unrecognized_native_type_adds_nothing() {
    let collections = vec![coll(
        "/Script/CoreUObject.Class'/Script/FactoryGame.FGSomethingElse'",
        vec![class("Widget", &[("mDisplayName", "Widget")])],
    )];
    let classes = Classes::load(&collections).unwrap();
    assert_eq!(classes.items.len(), 0);
    assert_eq!(classes.recipes.len(), 0);
    assert_eq!(classes.machine.len(), 0);
}

#[test]
fn malformed_native_type_aborts_load() {
    let collections = vec![coll("NotWrapped", vec![])];
    assert_eq!(
        Classes::load(&collections).unwrap_err(),
        LoadError::MalformedNativeClass
    );
}

#[test]
fn missing_required_field_aborts_load() {
    let collections = vec![coll(
        ITEM_NATIVE,
        vec![class("IronPlate", &[("mDisplayName", "Iron Plate")])],
    )];
    assert_eq!(
        Classes::load(&collections).unwrap_err(),
        LoadError::MissingField
    );
}

#[test]
fn unknown_stack_size_aborts_load() {
    let collections = vec![coll(
        ITEM_NATIVE,
        vec![class(
            "IronPlate",
            &[("mDisplayName", "Iron Plate"), ("mStackSize", "SS_WAT")],
        )],
    )];
    assert_eq!(
        Classes::load(&collections).unwrap_err(),
        LoadError::UnknownStackSize
    );
}

#[test]
fn malformed_composite_field_aborts_load() {
    let collections = vec![coll(
        RECIPE_NATIVE,
        vec![class(
            "Recipe_Bad",
            &[
                ("mDisplayName", "Bad"),
                ("mProducedIn", "(\"/Game/Build.Constructor\")"),
                ("mIngredients", "not a list"),
                ("mProduct", ""),
                ("mManufactoringDuration", "6"),
            ],
        )],
    )];
    assert_eq!(
        Classes::load(&collections).unwrap_err(),
        LoadError::MalformedField
    );
}

#[test]
fn later_record_with_same_key_wins() {
    let collections = vec![coll(
        ITEM_NATIVE,
        vec![
            class(
                "IronPlate",
                &[("mDisplayName", "Old Name"), ("mStackSize", "SS_SMALL")],
            ),
            class(
                "IronPlate",
                &[("mDisplayName", "Iron Plate"), ("mStackSize", "SS_MEDIUM")],
            ),
        ],
    )];
    let classes = Classes::load(&collections).unwrap();
    assert_eq!(classes.items.len(), 1);
    assert_eq!(classes.items[0].1.display_name, "Iron Plate");
    assert_eq!(classes.items[0].1.stack_size, StackSize::Medium);
}

#[test]
fn missing_reference_listed_exactly_once() {
    let recipe = |name: &str, product: &str| {
        class(
            name,
            &[
                ("mDisplayName", name),
                ("mProducedIn", "(\"/Game/Build.Constructor\")"),
                (
                    "mIngredients",
                    "(ItemClass=\"/Game/Iron.IronIngot'\",Amount=3)",
                ),
                ("mProduct", product),
                ("mManufactoringDuration", "6"),
            ],
        )
    };
    let collections = vec![
        coll(
            ITEM_NATIVE,
            vec![class(
                "IronPlate",
                &[("mDisplayName", "Iron Plate"), ("mStackSize", "SS_MEDIUM")],
            )],
        ),
        coll(
            MACHINE_NATIVE,
            vec![class("Constructor", &[("mDisplayName", "Constructor")])],
        ),
        coll(
            RECIPE_NATIVE,
            vec![
                recipe(
                    "Recipe_A",
                    "(ItemClass=\"/Game/Iron.IronPlate'\",Amount=2)",
                ),
                recipe(
                    "Recipe_B",
                    "(ItemClass=\"/Game/Iron.IronRod'\",Amount=1)",
                ),
            ],
        ),
    ];
    let classes = Classes::load(&collections).unwrap();
    // IronIngot is referenced by both recipes and is no item; IronRod by
    // one; IronPlate is resolved. Each missing name appears exactly once.
    let missing = classes.missing_items();
    let mut names: Vec<&str> = missing.iter().map(|n| n.as_str()).collect();
    names.sort();
    assert_eq!(names, vec!["IronIngot", "IronRod"]);
}

#[test]
fn zero_duration_recipe_reports_overflow() {
    let collections = vec![
        coll(
            ITEM_NATIVE,
            vec![class(
                "IronPlate",
                &[("mDisplayName", "Iron Plate"), ("mStackSize", "SS_MEDIUM")],
            )],
        ),
        coll(
            MACHINE_NATIVE,
            vec![class("Constructor", &[("mDisplayName", "Constructor")])],
        ),
        coll(
            RECIPE_NATIVE,
            vec![class(
                "Recipe_IronPlate",
                &[
                    ("mDisplayName", "Iron Plate"),
                    ("mProducedIn", "(\"/Game/Build.Constructor\")"),
                    ("mIngredients", ""),
                    ("mProduct", "(ItemClass=\"/Game/Iron.IronPlate'\",Amount=2)"),
                    ("mManufactoringDuration", "0"),
                ],
            )],
        ),
    ];
    let classes = Classes::load(&collections).unwrap();
    // a zero-second cycle has no finite rate; the query reports it instead
    // of panicking
    assert_eq!(
        classes.query("Iron Plate", Ratio::new(60, 1)).unwrap_err(),
        QueryError::ArithmeticOverflow
    );
}

#[test]
fn collections_iterate_in_ascending_key_order() {
    // insertion order scrambled; the catalog stores keys ascending
    let collections = vec![coll(
        ITEM_NATIVE,
        vec![
            class("Zeta", &[("mDisplayName", "Zeta"), ("mStackSize", "SS_ONE")]),
            class("Alpha", &[("mDisplayName", "Alpha"), ("mStackSize", "SS_ONE")]),
            class("Mid", &[("mDisplayName", "Mid"), ("mStackSize", "SS_ONE")]),
        ],
    )];
    let classes = Classes::load(&collections).unwrap();
    let keys: Vec<&str> = classes.items.iter().map(|(k, _)| k.as_str()).collect();
    assert_eq!(keys, vec!["Alpha", "Mid", "Zeta"]);
}
