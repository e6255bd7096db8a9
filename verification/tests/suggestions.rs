use fake::faker::lorem::en::Word;
use fake::Fake;
use vic3::{
    get_suggestions, Building, BuildingRepo, Input, Output, Plan, Resource, ResourceRepo,
    Suggestion,
};

fn fake_resource() -> Resource {
    Resource { name: Word().fake() }
}

fn fake_building(inputs: Vec<Input>, outputs: Vec<Output>) -> Building {
    Building { name: Word().fake(), inputs, outputs }
}

#[test]
fn test_plan_add_goal() {
    let wood: Resource = fake_resource();
    let wood_resource_id = String::from("wood");

    let logging_camp: Building = fake_building(
        vec![],
        vec![Output { resource_id: wood_resource_id.clone(), quantity: 5 }],
    );
    let logging_camp_id = String::from("logging_camp");

    let mut resources = ResourceRepo::new();
    resources.insert(wood_resource_id.clone(), wood.clone());
    let mut buildings = BuildingRepo::new();
    buildings.insert(logging_camp_id.clone(), logging_camp.clone());

    let mut plan = Plan::new(resources, buildings);
    let deficit = 10;

    assert_eq!(Ok(()), plan.add_goal(&wood_resource_id, deficit));

    let expected_suggestions = vec![Suggestion {
        deficit,
        target: wood.name.clone(),
        solution: logging_camp.name.clone(),
        quantity: 2,
    }];

    let suggestions = plan.suggestions;

    assert_eq!(expected_suggestions, suggestions);
}

#[test]
fn test_suggestion() {
    let wood: Resource = fake_resource();
    let wood_resource_id = String::from("wood");

    let logging_camp: Building = fake_building(
        vec![],
        vec![Output { resource_id: wood_resource_id.clone(), quantity: 1 }],
    );
    let logging_camp_id = String::from("logging_camp");

    let mut resources = ResourceRepo::new();
    resources.insert(wood_resource_id.clone(), wood.clone());
    let mut buildings = BuildingRepo::new();
    buildings.insert(logging_camp_id.clone(), logging_camp.clone());

    let deficit = 3;

    let expected_suggestion = Suggestion {
        deficit,
        target: wood.name.clone(),
        solution: logging_camp.name.clone(),
        quantity: 3,
    };

    let suggestions =
        get_suggestions(&wood_resource_id, deficit, &resources, &buildings).unwrap();

    assert_eq!(expected_suggestion, suggestions[0]);
}

#[test]
fn test_chained_suggestion() {
    let wood: Resource = fake_resource();
    let wood_resource_id = String::from("wood");

    let tools: Resource = fake_resource();
    let tools_resource_id = String::from("tools");

    let logging_camp: Building = fake_building(
        vec![],
        vec![Output { resource_id: wood_resource_id.clone(), quantity: 10 }],
    );
    let logging_camp_id = String::from("logging_camp");

    let tooling_workshop: Building = fake_building(
        vec![Input { resource_id: wood_resource_id.clone(), quantity: 20 }],
        vec![Output { resource_id: tools_resource_id.clone(), quantity: 10 }],
    );
    let tooling_workshop_id = String::from("tooling_workshop");

    let mut resources = ResourceRepo::new();
    resources.insert(wood_resource_id.clone(), wood.clone());
    resources.insert(tools_resource_id.clone(), tools.clone());

    let mut buildings = BuildingRepo::new();
    buildings.insert(logging_camp_id.clone(), logging_camp.clone());
    buildings.insert(tooling_workshop_id.clone(), tooling_workshop.clone());

    let deficit = 20;

    let expected_suggestions = vec![
        Suggestion {
            deficit: 40,
            target: wood.name.clone(),
            solution: logging_camp.name.clone(),
            quantity: 4,
        },
        Suggestion {
            deficit,
            target: tools.name.clone(),
            solution: tooling_workshop.name.clone(),
            quantity: 2,
        },
    ];

    let suggestions =
        get_suggestions(&tools_resource_id, deficit, &resources, &buildings).unwrap();

    assert_eq!(expected_suggestions, suggestions);
}
