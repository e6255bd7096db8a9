use vic3::resolver::batches_needed;
use vic3::{
    get_suggestions, Building, BuildingRepo, Input, Output, ResolveError, Resource,
    ResourceRepo, Suggestion,
};

fn resource(name: &str) -> Resource {
    Resource { name: name.to_string() }
}

fn flow_in(resource_id: &str, quantity: u32) -> Input {
    Input { resource_id: resource_id.to_string(), quantity }
}

fn flow_out(resource_id: &str, quantity: u32) -> Output {
    Output { resource_id: resource_id.to_string(), quantity }
}

fn building(name: &str, inputs: Vec<Input>, outputs: Vec<Output>) -> Building {
    Building { name: name.to_string(), inputs, outputs }
}

fn resources_of(entries: Vec<(&str, &str)>) -> ResourceRepo {
    let mut repo = ResourceRepo::new();
    for (id, name) in entries {
        repo.insert(id.to_string(), resource(name));
    }
    repo
}

fn buildings_of(entries: Vec<(&str, Building)>) -> BuildingRepo {
    let mut repo = BuildingRepo::new();
    for (id, item) in entries {
        repo.insert(id.to_string(), item);
    }
    repo
}

fn suggestion(deficit: u32, quantity: usize, solution: &str, target: &str) -> Suggestion {
    Suggestion { deficit, quantity, solution: solution.to_string(), target: target.to_string() }
}

#[test]
fn single_camp_covers_wood() {
    let resources = resources_of(vec![("wood", "Wood")]);
    let buildings =
        buildings_of(vec![("logging_camp", building("Wood", vec![], vec![flow_out("wood", 1)]))]);

    let suggestions = get_suggestions("wood", 3, &resources, &buildings).unwrap();

    assert_eq!(vec![suggestion(3, 3, "Wood", "Wood")], suggestions);
}

#[test]
fn chained_tools_need_wood_first() {
    let resources = resources_of(vec![("wood", "Wood"), ("tools", "Tools")]);
    let buildings = buildings_of(vec![
        ("logging_camp", building("Logging Camp", vec![], vec![flow_out("wood", 10)])),
        (
            "tooling_workshop",
            building("Tooling Workshop", vec![flow_in("wood", 20)], vec![flow_out("tools", 10)]),
        ),
    ]);

    let suggestions = get_suggestions("tools", 20, &resources, &buildings).unwrap();

    assert_eq!(
        vec![
            suggestion(40, 4, "Logging Camp", "Wood"),
            suggestion(20, 2, "Tooling Workshop", "Tools"),
        ],
        suggestions
    );
}

#[test]
fn single_producer_rounds_up() {
    let resources = resources_of(vec![("iron", "Iron")]);
    let buildings =
        buildings_of(vec![("mine", building("Iron Mine", vec![], vec![flow_out("iron", 3)]))]);

    let suggestions = get_suggestions("iron", 7, &resources, &buildings).unwrap();

    assert_eq!(vec![suggestion(7, 3, "Iron Mine", "Iron")], suggestions);
}

#[test]
fn batches_are_the_ceiling_of_the_quotient() {
    assert_eq!(2, batches_needed(10, 5));
    assert_eq!(3, batches_needed(11, 5));
    assert_eq!(1, batches_needed(1, 5));
    assert_eq!(0, batches_needed(0, 5));
    assert_eq!(1, batches_needed(1, 1));
    assert_eq!(4, batches_needed(40, 10));
    assert_eq!(u32::MAX, batches_needed(u32::MAX, 1));
    assert_eq!(1, batches_needed(u32::MAX, u32::MAX));
    assert_eq!(2, batches_needed(u32::MAX, u32::MAX - 1));
    assert_eq!(1, batches_needed(1, u32::MAX));
}

#[test]
fn batches_cover_the_deficit_with_none_to_spare() {
    for deficit in 0u32..60 {
        for rate in 1u32..12 {
            let batches = u64::from(batches_needed(deficit, rate));
            assert!(batches * u64::from(rate) >= u64::from(deficit));
            if batches > 0 {
                assert!((batches - 1) * u64::from(rate) < u64::from(deficit));
            }
        }
    }
}

#[test]
fn zero_rate_needs_no_batches() {
    assert_eq!(0, batches_needed(5, 0));
    assert_eq!(0, batches_needed(0, 0));
    assert_eq!(0, batches_needed(u32::MAX, 0));
}

#[test]
fn inputs_come_before_the_building_that_consumes_them() {
    let resources =
        resources_of(vec![("ore", "Ore"), ("coal", "Coal"), ("steel", "Steel"), ("rail", "Rail")]);
    let buildings = buildings_of(vec![
        ("rail_works", building("Rail Works", vec![flow_in("steel", 3)], vec![flow_out("rail", 2)])),
        (
            "steel_mill",
            building(
                "Steel Mill",
                vec![flow_in("ore", 2), flow_in("coal", 1)],
                vec![flow_out("steel", 4)],
            ),
        ),
        ("ore_mine", building("Ore Mine", vec![], vec![flow_out("ore", 5)])),
        ("coal_mine", building("Coal Mine", vec![], vec![flow_out("coal", 7)])),
    ]);

    let suggestions = get_suggestions("rail", 5, &resources, &buildings).unwrap();

    // rail: ceil(5/2) = 3 batches, steel demand 9: ceil(9/4) = 3 batches,
    // ore demand 6: ceil(6/5) = 2, coal demand 3: ceil(3/7) = 1.
    assert_eq!(
        vec![
            suggestion(6, 2, "Ore Mine", "Ore"),
            suggestion(3, 1, "Coal Mine", "Coal"),
            suggestion(9, 3, "Steel Mill", "Steel"),
            suggestion(5, 3, "Rail Works", "Rail"),
        ],
        suggestions
    );
}

#[test]
fn every_producer_is_listed_in_catalog_order() {
    let resources = resources_of(vec![("wood", "Wood"), ("tools", "Tools")]);
    let buildings = buildings_of(vec![
        ("sawmill", building("Sawmill", vec![flow_in("tools", 1)], vec![flow_out("wood", 8)])),
        ("smithy", building("Smithy", vec![], vec![flow_out("tools", 2)])),
        ("logging_camp", building("Logging Camp", vec![], vec![flow_out("wood", 3)])),
    ]);

    let suggestions = get_suggestions("wood", 9, &resources, &buildings).unwrap();

    assert_eq!(
        vec![
            suggestion(2, 1, "Smithy", "Tools"),
            suggestion(9, 2, "Sawmill", "Wood"),
            suggestion(9, 3, "Logging Camp", "Wood"),
        ],
        suggestions
    );
}

#[test]
fn unknown_resource_needs_nothing() {
    let resources = resources_of(vec![("wood", "Wood")]);
    let buildings = buildings_of(vec![
        ("logging_camp", building("Logging Camp", vec![], vec![flow_out("wood", 1)])),
        ("quarry", building("Quarry", vec![], vec![flow_out("stone", 1)])),
    ]);

    assert_eq!(Ok(vec![]), get_suggestions("stone", 4, &resources, &buildings));
    assert_eq!(Ok(vec![]), get_suggestions("", 4, &resources, &buildings));
    assert_eq!(Ok(vec![]), get_suggestions("wood", 4, &ResourceRepo::new(), &buildings));
}

#[test]
fn known_resource_without_producer_needs_nothing() {
    let resources = resources_of(vec![("wood", "Wood"), ("gold", "Gold")]);
    let buildings =
        buildings_of(vec![("logging_camp", building("Logging Camp", vec![], vec![flow_out("wood", 1)]))]);

    assert_eq!(Ok(vec![]), get_suggestions("gold", 4, &resources, &buildings));
    assert_eq!(Ok(vec![]), get_suggestions("wood", 4, &resources, &BuildingRepo::new()));
}

#[test]
fn unknown_input_is_passed_over() {
    let resources = resources_of(vec![("tools", "Tools")]);
    let buildings = buildings_of(vec![(
        "tooling_workshop",
        building("Tooling Workshop", vec![flow_in("wood", 20)], vec![flow_out("tools", 10)]),
    )]);

    let suggestions = get_suggestions("tools", 20, &resources, &buildings).unwrap();

    assert_eq!(vec![suggestion(20, 2, "Tooling Workshop", "Tools")], suggestions);
}

#[test]
fn zero_deficit_gives_zero_quantities() {
    let resources = resources_of(vec![("wood", "Wood"), ("tools", "Tools")]);
    let buildings = buildings_of(vec![
        ("logging_camp", building("Logging Camp", vec![], vec![flow_out("wood", 10)])),
        (
            "tooling_workshop",
            building("Tooling Workshop", vec![flow_in("wood", 20)], vec![flow_out("tools", 10)]),
        ),
    ]);

    let suggestions = get_suggestions("tools", 0, &resources, &buildings).unwrap();

    assert_eq!(
        vec![suggestion(0, 0, "Logging Camp", "Wood"), suggestion(0, 0, "Tooling Workshop", "Tools")],
        suggestions
    );
}

#[test]
fn output_of_zero_gives_a_suggestion_of_zero() {
    let resources = resources_of(vec![("wood", "Wood"), ("tools", "Tools")]);
    let buildings = buildings_of(vec![
        ("logging_camp", building("Logging Camp", vec![], vec![flow_out("wood", 10)])),
        (
            "idle_workshop",
            building("Idle Workshop", vec![flow_in("wood", 20)], vec![flow_out("tools", 0)]),
        ),
    ]);

    let suggestions = get_suggestions("tools", 20, &resources, &buildings).unwrap();

    assert_eq!(
        vec![suggestion(0, 0, "Logging Camp", "Wood"), suggestion(20, 0, "Idle Workshop", "Tools")],
        suggestions
    );
}

#[test]
fn first_listed_output_sets_the_rate() {
    let resources = resources_of(vec![("wood", "Wood")]);
    let buildings = buildings_of(vec![(
        "camp",
        building(
            "Camp",
            vec![],
            vec![flow_out("bark", 1), flow_out("wood", 4), flow_out("wood", 1)],
        ),
    )]);

    let suggestions = get_suggestions("wood", 9, &resources, &buildings).unwrap();

    assert_eq!(vec![suggestion(9, 3, "Camp", "Wood")], suggestions);
}

#[test]
fn two_resources_that_need_each_other_are_a_cycle() {
    let resources = resources_of(vec![("steel", "Steel"), ("tools", "Tools")]);
    let buildings = buildings_of(vec![
        ("steel_mill", building("Steel Mill", vec![flow_in("tools", 1)], vec![flow_out("steel", 1)])),
        ("smithy", building("Smithy", vec![flow_in("steel", 1)], vec![flow_out("tools", 1)])),
    ]);

    assert_eq!(
        Err(ResolveError::CyclicDependency),
        get_suggestions("steel", 1, &resources, &buildings)
    );
    assert_eq!(
        Err(ResolveError::CyclicDependency),
        get_suggestions("tools", 5, &resources, &buildings)
    );
    assert_eq!(
        Err(ResolveError::CyclicDependency),
        get_suggestions("tools", 0, &resources, &buildings)
    );
}

#[test]
fn building_that_consumes_its_own_output_is_a_cycle() {
    let resources = resources_of(vec![("grain", "Grain")]);
    let buildings = buildings_of(vec![(
        "farm",
        building("Farm", vec![flow_in("grain", 1)], vec![flow_out("grain", 3)]),
    )]);

    assert_eq!(
        Err(ResolveError::CyclicDependency),
        get_suggestions("grain", 2, &resources, &buildings)
    );
}

#[test]
fn cycle_behind_a_plain_producer_still_fails() {
    let resources = resources_of(vec![("wood", "Wood"), ("steel", "Steel"), ("tools", "Tools")]);
    let buildings = buildings_of(vec![
        ("logging_camp", building("Logging Camp", vec![], vec![flow_out("wood", 1)])),
        (
            "steel_mill",
            building(
                "Steel Mill",
                vec![flow_in("wood", 1), flow_in("tools", 1)],
                vec![flow_out("steel", 1)],
            ),
        ),
        ("smithy", building("Smithy", vec![flow_in("steel", 1)], vec![flow_out("tools", 1)])),
    ]);

    assert_eq!(
        Err(ResolveError::CyclicDependency),
        get_suggestions("steel", 1, &resources, &buildings)
    );
    assert_eq!(
        Ok(vec![suggestion(2, 2, "Logging Camp", "Wood")]),
        get_suggestions("wood", 2, &resources, &buildings)
    );
}

#[test]
fn shared_input_is_resolved_once_per_consumer() {
    let resources = resources_of(vec![
        ("wood", "Wood"),
        ("planks", "Planks"),
        ("paper", "Paper"),
        ("books", "Books"),
    ]);
    let buildings = buildings_of(vec![
        ("logging_camp", building("Logging Camp", vec![], vec![flow_out("wood", 10)])),
        ("sawmill", building("Sawmill", vec![flow_in("wood", 5)], vec![flow_out("planks", 2)])),
        ("paper_mill", building("Paper Mill", vec![flow_in("wood", 3)], vec![flow_out("paper", 4)])),
        (
            "press",
            building(
                "Press",
                vec![flow_in("planks", 1), flow_in("paper", 6)],
                vec![flow_out("books", 1)],
            ),
        ),
    ]);

    let suggestions = get_suggestions("books", 2, &resources, &buildings).unwrap();

    assert_eq!(
        vec![
            suggestion(5, 1, "Logging Camp", "Wood"),
            suggestion(2, 1, "Sawmill", "Planks"),
            suggestion(9, 1, "Logging Camp", "Wood"),
            suggestion(12, 3, "Paper Mill", "Paper"),
            suggestion(2, 2, "Press", "Books"),
        ],
        suggestions
    );
}

#[test]
fn demand_beyond_u32_is_an_overflow() {
    let resources = resources_of(vec![("wood", "Wood"), ("tools", "Tools")]);
    let buildings = buildings_of(vec![
        ("logging_camp", building("Logging Camp", vec![], vec![flow_out("wood", 1)])),
        (
            "tooling_workshop",
            building("Tooling Workshop", vec![flow_in("wood", u32::MAX)], vec![flow_out("tools", 1)]),
        ),
    ]);

    assert_eq!(
        Err(ResolveError::DeficitOverflow),
        get_suggestions("tools", 2, &resources, &buildings)
    );
    assert_eq!(
        Ok(vec![
            suggestion(u32::MAX, u32::MAX as usize, "Logging Camp", "Wood"),
            suggestion(1, 1, "Tooling Workshop", "Tools"),
        ]),
        get_suggestions("tools", 1, &resources, &buildings)
    );
}

#[test]
fn overflow_on_an_unknown_input_is_still_an_overflow() {
    let resources = resources_of(vec![("tools", "Tools")]);
    let buildings = buildings_of(vec![(
        "tooling_workshop",
        building("Tooling Workshop", vec![flow_in("wood", 65536)], vec![flow_out("tools", 1)]),
    )]);

    assert_eq!(
        Err(ResolveError::DeficitOverflow),
        get_suggestions("tools", 65536, &resources, &buildings)
    );
    assert_eq!(
        Ok(vec![suggestion(65535, 65535, "Tooling Workshop", "Tools")]),
        get_suggestions("tools", 65535, &resources, &buildings)
    );
}

#[test]
fn overflow_before_the_cycle_hides_it() {
    let resources = resources_of(vec![("steel", "Steel"), ("tools", "Tools")]);
    let buildings = buildings_of(vec![
        (
            "steel_mill",
            building("Steel Mill", vec![flow_in("tools", u32::MAX)], vec![flow_out("steel", 1)]),
        ),
        ("smithy", building("Smithy", vec![flow_in("steel", 1)], vec![flow_out("tools", 1)])),
    ]);

    assert_eq!(
        Err(ResolveError::DeficitOverflow),
        get_suggestions("steel", 2, &resources, &buildings)
    );
    assert_eq!(
        Err(ResolveError::CyclicDependency),
        get_suggestions("steel", 1, &resources, &buildings)
    );
}
