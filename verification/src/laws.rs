//! What holds of every plan that the resolver gives.

use vstd::prelude::*;
use crate::model::{
    batches_for, lemma_batches_cover, lemma_inputs_error_sticks, lemma_producers_error_sticks,
    lemma_unvisited_decreases, output_rate, produces, resolve,
    resolve_building, resolve_inputs, resolve_producers, unvisited, Buildings, Outcome,
    ResolveError, Resources, SuggestionView,
};
use crate::repo::lookup;
use crate::vic::{BuildingView, FlowView};

verus! {

/// A resource that the catalog does not hold needs no action: its plan is
/// empty, whatever the deficit and whatever is being resolved.
pub proof fn lemma_unknown_resource_needs_nothing(
    resources: Resources,
    buildings: Buildings,
    visiting: Set<Seq<char>>,
    id: Seq<char>,
    deficit: nat,
)
    requires
        lookup(resources, id) is None,
    ensures
        resolve(resources, buildings, visiting, id, deficit) == Ok::<
            Seq<SuggestionView>,
            ResolveError,
        >(Seq::empty()),
{
}

/// The suggestion that has `building` cover `deficit` units of the resource
/// `id`, named `target`.
pub open spec fn suggestion_for(
    building: BuildingView,
    id: Seq<char>,
    target: Seq<char>,
    deficit: nat,
) -> SuggestionView {
    SuggestionView {
        deficit,
        quantity: batches_for(deficit, output_rate(building, id)),
        solution: building.name,
        target,
    }
}

/// Where the building at `producer` is the only one among the first `count`
/// that produces `id`, and it has no inputs, those buildings contribute its
/// suggestion and nothing else.
proof fn lemma_lone_producer_prefix(
    resources: Resources,
    buildings: Buildings,
    visiting: Set<Seq<char>>,
    id: Seq<char>,
    target: Seq<char>,
    deficit: nat,
    producer: int,
    count: nat,
)
    requires
        0 <= producer < buildings.len(),
        count <= buildings.len(),
        produces(buildings[producer].1, id),
        buildings[producer].1.inputs.len() == 0,
        forall|j: int|
            0 <= j < buildings.len() && j != producer ==> !produces(
                (#[trigger] buildings[j]).1,
                id,
            ),
    ensures
        resolve_producers(resources, buildings, visiting, id, target, deficit, count) == Ok::<
            Seq<SuggestionView>,
            ResolveError,
        >(
            if count <= producer {
                Seq::empty()
            } else {
                seq![suggestion_for(buildings[producer].1, id, target, deficit)]
            },
        ),
    decreases count,
{
    if count > 0 {
        lemma_lone_producer_prefix(
            resources,
            buildings,
            visiting,
            id,
            target,
            deficit,
            producer,
            (count - 1) as nat,
        );
        let own = suggestion_for(buildings[producer].1, id, target, deficit);
        if count - 1 == producer {
            let building = buildings[producer].1;
            assert(resolve_inputs(
                resources,
                buildings,
                visiting,
                building.inputs,
                own.quantity,
                0,
            ) == Ok::<Seq<SuggestionView>, ResolveError>(Seq::empty()));
            assert(resolve_building(resources, buildings, visiting, id, target, deficit, building)
                == Ok::<Seq<SuggestionView>, ResolveError>(Seq::empty().push(own)));
            assert(Seq::<SuggestionView>::empty() + Seq::<SuggestionView>::empty().push(own)
                =~= seq![own]);
        } else {
            assert(!produces(buildings[count - 1].1, id));
        }
    }
}

/// A known resource that a single building produces, that building having no
/// inputs, is covered by exactly one suggestion: as many batches of that
/// building as the deficit divided by its rate, rounded up.
pub proof fn lemma_single_producer(
    resources: Resources,
    buildings: Buildings,
    id: Seq<char>,
    deficit: nat,
    producer: int,
)
    requires
        lookup(resources, id) is Some,
        0 <= producer < buildings.len(),
        produces(buildings[producer].1, id),
        buildings[producer].1.inputs.len() == 0,
        forall|j: int|
            0 <= j < buildings.len() && j != producer ==> !produces(
                (#[trigger] buildings[j]).1,
                id,
            ),
    ensures
        resolve(resources, buildings, Set::empty(), id, deficit) == Ok::<
            Seq<SuggestionView>,
            ResolveError,
        >(
            seq![
                suggestion_for(
                    buildings[producer].1,
                    id,
                    lookup(resources, id).unwrap().name,
                    deficit,
                ),
            ],
        ),
{
    lemma_lone_producer_prefix(
        resources,
        buildings,
        Set::<Seq<char>>::empty().insert(id),
        id,
        lookup(resources, id).unwrap().name,
        deficit,
        producer,
        buildings.len(),
    );
}

/// Whether `outcome` asks for nothing: it is a plan whose suggestions all
/// have deficit zero and quantity zero, or a cyclic dependency.
pub open spec fn asks_for_nothing(outcome: Outcome) -> bool {
    match outcome {
        Ok(plan) => forall|i: int|
            0 <= i < plan.len() ==> (#[trigger] plan[i]).deficit == 0 && plan[i].quantity == 0,
        Err(e) => e == ResolveError::CyclicDependency,
    }
}

/// A deficit of zero is resolved like any other, and nothing in its plan has
/// anything to build: every suggestion has deficit zero and quantity zero.
/// No demand overflows, so the one way to have no plan is a cycle.
pub proof fn lemma_zero_deficit(
    resources: Resources,
    buildings: Buildings,
    visiting: Set<Seq<char>>,
    id: Seq<char>,
)
    ensures
        asks_for_nothing(resolve(resources, buildings, visiting, id, 0)),
    decreases unvisited(resources, visiting), 0nat, 0nat,
{
    if lookup(resources, id) is Some && !visiting.contains(id) {
        lemma_unvisited_decreases(resources, visiting, id);
        lemma_zero_deficit_producers(
            resources,
            buildings,
            visiting.insert(id),
            id,
            lookup(resources, id).unwrap().name,
            buildings.len(),
        );
    }
}

proof fn lemma_zero_deficit_producers(
    resources: Resources,
    buildings: Buildings,
    visiting: Set<Seq<char>>,
    id: Seq<char>,
    target: Seq<char>,
    count: nat,
)
    ensures
        asks_for_nothing(resolve_producers(resources, buildings, visiting, id, target, 0, count)),
    decreases unvisited(resources, visiting), 3nat, count,
{
    if 0 < count <= buildings.len() {
        lemma_zero_deficit_producers(
            resources,
            buildings,
            visiting,
            id,
            target,
            (count - 1) as nat,
        );
        lemma_zero_deficit_building(
            resources,
            buildings,
            visiting,
            id,
            target,
            buildings[count - 1].1,
        );
    }
}

proof fn lemma_zero_deficit_building(
    resources: Resources,
    buildings: Buildings,
    visiting: Set<Seq<char>>,
    id: Seq<char>,
    target: Seq<char>,
    building: BuildingView,
)
    ensures
        asks_for_nothing(resolve_building(resources, buildings, visiting, id, target, 0, building)),
    decreases unvisited(resources, visiting), 2nat, 0nat,
{
    let rate = output_rate(building, id);
    if rate > 0 {
        lemma_batches_cover(0, rate);
    }
    assert(batches_for(0, rate) == 0);
    lemma_zero_deficit_inputs(
        resources,
        buildings,
        visiting,
        building.inputs,
        building.inputs.len(),
    );
}

proof fn lemma_zero_deficit_inputs(
    resources: Resources,
    buildings: Buildings,
    visiting: Set<Seq<char>>,
    inputs: Seq<FlowView>,
    count: nat,
)
    ensures
        asks_for_nothing(resolve_inputs(resources, buildings, visiting, inputs, 0, count)),
    decreases unvisited(resources, visiting), 1nat, count,
{
    if 0 < count <= inputs.len() {
        lemma_zero_deficit_inputs(resources, buildings, visiting, inputs, (count - 1) as nat);
        let input = inputs[count - 1];
        assert(input.quantity * 0 == 0) by (nonlinear_arith);
        lemma_zero_deficit(resources, buildings, visiting, input.resource_id);
    }
}

/// A building that produces `id` and fails makes the whole catalog fail for
/// `id`.
proof fn lemma_failing_producer(
    resources: Resources,
    buildings: Buildings,
    visiting: Set<Seq<char>>,
    id: Seq<char>,
    target: Seq<char>,
    deficit: nat,
    producer: int,
)
    requires
        0 <= producer < buildings.len(),
        produces(buildings[producer].1, id),
        resolve_building(
            resources,
            buildings,
            visiting,
            id,
            target,
            deficit,
            buildings[producer].1,
        ) is Err,
    ensures
        resolve_producers(
            resources,
            buildings,
            visiting,
            id,
            target,
            deficit,
            buildings.len(),
        ) is Err,
{
    let upto = (producer + 1) as nat;
    assert(resolve_producers(resources, buildings, visiting, id, target, deficit, upto) is Err);
    lemma_producers_error_sticks(
        resources,
        buildings,
        visiting,
        id,
        target,
        deficit,
        upto,
        buildings.len(),
    );
}

/// An input whose demand overflows, or has no plan, leaves the inputs without
/// a plan.
proof fn lemma_failing_input(
    resources: Resources,
    buildings: Buildings,
    visiting: Set<Seq<char>>,
    inputs: Seq<FlowView>,
    batches: nat,
    input: int,
)
    requires
        0 <= input < inputs.len(),
        inputs[input].quantity * batches > u32::MAX || resolve(
            resources,
            buildings,
            visiting,
            inputs[input].resource_id,
            inputs[input].quantity * batches,
        ) is Err,
    ensures
        resolve_inputs(resources, buildings, visiting, inputs, batches, inputs.len()) is Err,
{
    let upto = (input + 1) as nat;
    assert(resolve_inputs(resources, buildings, visiting, inputs, batches, upto) is Err);
    lemma_inputs_error_sticks(
        resources,
        buildings,
        visiting,
        inputs,
        batches,
        upto,
        inputs.len(),
    );
}

/// Whether the building at `producer` produces `produced` and lists
/// `consumed` as its input number `input`.
pub open spec fn feeds_on(
    buildings: Buildings,
    producer: int,
    produced: Seq<char>,
    input: int,
    consumed: Seq<char>,
) -> bool {
    &&& 0 <= producer < buildings.len()
    &&& produces(buildings[producer].1, produced)
    &&& 0 <= input < buildings[producer].1.inputs.len()
    &&& buildings[producer].1.inputs[input].resource_id == consumed
}

/// Two known resources, each with a producer that consumes the other, have no
/// plan: resolving either of them fails.
pub proof fn lemma_cycle_has_no_plan(
    resources: Resources,
    buildings: Buildings,
    visiting: Set<Seq<char>>,
    first: Seq<char>,
    second: Seq<char>,
    deficit: nat,
    first_producer: int,
    first_input: int,
    second_producer: int,
    second_input: int,
)
    requires
        lookup(resources, first) is Some,
        lookup(resources, second) is Some,
        feeds_on(buildings, first_producer, first, first_input, second),
        feeds_on(buildings, second_producer, second, second_input, first),
    ensures
        resolve(resources, buildings, visiting, first, deficit) is Err,
{
    if !visiting.contains(first) {
        let outer = visiting.insert(first);
        let first_name = lookup(resources, first).unwrap().name;
        let maker = buildings[first_producer].1;
        let batches = batches_for(deficit, output_rate(maker, first));
        let demand = maker.inputs[first_input].quantity * batches;
        if demand <= u32::MAX && !outer.contains(second) {
            let inner = outer.insert(second);
            let second_name = lookup(resources, second).unwrap().name;
            let feeder = buildings[second_producer].1;
            let feeder_batches = batches_for(demand, output_rate(feeder, second));
            assert(inner.contains(first));
            lemma_failing_input(
                resources,
                buildings,
                inner,
                feeder.inputs,
                feeder_batches,
                second_input,
            );
            lemma_failing_producer(
                resources,
                buildings,
                inner,
                second,
                second_name,
                demand,
                second_producer,
            );
        }
        lemma_failing_input(resources, buildings, outer, maker.inputs, batches, first_input);
        lemma_failing_producer(
            resources,
            buildings,
            outer,
            first,
            first_name,
            deficit,
            first_producer,
        );
    }
}

/// Two known resources, each with a producer that consumes the other, give
/// a cyclic dependency, unless a demand overflowed before the cycle closed.
pub proof fn lemma_cycle_is_cyclic_dependency(
    resources: Resources,
    buildings: Buildings,
    first: Seq<char>,
    second: Seq<char>,
    deficit: nat,
    first_producer: int,
    first_input: int,
    second_producer: int,
    second_input: int,
)
    requires
        lookup(resources, first) is Some,
        lookup(resources, second) is Some,
        feeds_on(buildings, first_producer, first, first_input, second),
        feeds_on(buildings, second_producer, second, second_input, first),
        resolve(resources, buildings, Set::empty(), first, deficit) != Err::<
            Seq<SuggestionView>,
            ResolveError,
        >(ResolveError::DeficitOverflow),
    ensures
        resolve(resources, buildings, Set::empty(), first, deficit) == Err::<
            Seq<SuggestionView>,
            ResolveError,
        >(ResolveError::CyclicDependency),
{
    lemma_cycle_has_no_plan(
        resources,
        buildings,
        Set::empty(),
        first,
        second,
        deficit,
        first_producer,
        first_input,
        second_producer,
        second_input,
    );
}

/// Whether `plan` starts with `prefix`.
pub open spec fn starts_with(plan: Seq<SuggestionView>, prefix: Seq<SuggestionView>) -> bool {
    prefix.len() <= plan.len() && plan.subrange(0, prefix.len() as int) == prefix
}

/// What the first buildings of the catalog contribute stays at the front when
/// more buildings are considered.
proof fn lemma_producers_extend(
    resources: Resources,
    buildings: Buildings,
    visiting: Set<Seq<char>>,
    id: Seq<char>,
    target: Seq<char>,
    deficit: nat,
    fewer: nat,
    count: nat,
)
    requires
        fewer <= count <= buildings.len(),
        resolve_producers(resources, buildings, visiting, id, target, deficit, count) is Ok,
    ensures
        resolve_producers(resources, buildings, visiting, id, target, deficit, fewer) is Ok,
        starts_with(
            resolve_producers(resources, buildings, visiting, id, target, deficit, count)->Ok_0,
            resolve_producers(resources, buildings, visiting, id, target, deficit, fewer)->Ok_0,
        ),
    decreases count - fewer,
{
    let whole = resolve_producers(resources, buildings, visiting, id, target, deficit, count)->Ok_0;
    if fewer < count {
        let shorter = (count - 1) as nat;
        lemma_producers_extend(resources, buildings, visiting, id, target, deficit, fewer, shorter);
        let most = resolve_producers(
            resources,
            buildings,
            visiting,
            id,
            target,
            deficit,
            shorter,
        )->Ok_0;
        let part = resolve_producers(
            resources,
            buildings,
            visiting,
            id,
            target,
            deficit,
            fewer,
        )->Ok_0;
        assert(starts_with(whole, most)) by {
            assert(whole.subrange(0, most.len() as int) =~= most);
        }
        assert(whole.subrange(0, part.len() as int) =~= most.subrange(0, part.len() as int));
    } else {
        assert(whole.subrange(0, whole.len() as int) =~= whole);
    }
}

/// In the plan for a known resource, every building that produces it stands
/// after what its own inputs need: the plan holds, one after the other, what
/// the buildings before it contribute, the plans for its inputs, and then the
/// building's own suggestion.
pub proof fn lemma_inputs_precede_building(
    resources: Resources,
    buildings: Buildings,
    visiting: Set<Seq<char>>,
    id: Seq<char>,
    deficit: nat,
    producer: int,
)
    requires
        lookup(resources, id) is Some,
        resolve(resources, buildings, visiting, id, deficit) is Ok,
        0 <= producer < buildings.len(),
        produces(buildings[producer].1, id),
    ensures
        ({
            let plan = resolve(resources, buildings, visiting, id, deficit)->Ok_0;
            let inside = visiting.insert(id);
            let target = lookup(resources, id).unwrap().name;
            let building = buildings[producer].1;
            let batches = batches_for(deficit, output_rate(building, id));
            let earlier = resolve_producers(
                resources,
                buildings,
                inside,
                id,
                target,
                deficit,
                producer as nat,
            );
            let supplies = resolve_inputs(
                resources,
                buildings,
                inside,
                building.inputs,
                batches,
                building.inputs.len(),
            );
            &&& earlier is Ok
            &&& supplies is Ok
            &&& starts_with(
                plan,
                earlier->Ok_0 + supplies->Ok_0 + seq![
                    suggestion_for(building, id, target, deficit),
                ],
            )
        }),
{
    let inside = visiting.insert(id);
    let target = lookup(resources, id).unwrap().name;
    let building = buildings[producer].1;
    let upto = (producer + 1) as nat;
    lemma_producers_extend(resources, buildings, inside, id, target, deficit, upto, buildings.len());
    let batches = batches_for(deficit, output_rate(building, id));
    let earlier = resolve_producers(
        resources,
        buildings,
        inside,
        id,
        target,
        deficit,
        producer as nat,
    )->Ok_0;
    let supplies = resolve_inputs(
        resources,
        buildings,
        inside,
        building.inputs,
        batches,
        building.inputs.len(),
    )->Ok_0;
    let own = suggestion_for(building, id, target, deficit);
    let plan = resolve(resources, buildings, visiting, id, deficit)->Ok_0;
    let front = resolve_producers(resources, buildings, inside, id, target, deficit, upto);
    assert(resolve_producers(
        resources,
        buildings,
        inside,
        id,
        target,
        deficit,
        producer as nat,
    ) is Ok);
    let built = resolve_building(resources, buildings, inside, id, target, deficit, building);
    assert(built is Ok);
    assert(built->Ok_0 == supplies.push(own));
    assert(front->Ok_0 == earlier + supplies.push(own));
    assert(earlier + supplies.push(own) =~= earlier + supplies + seq![own]);
    assert(starts_with(plan, front->Ok_0));
}

/// Whether `suggestion` is what the building at `producer` contributes to a
/// deficit of the known resource `id`, which it produces.
pub open spec fn made_by(
    resources: Resources,
    buildings: Buildings,
    suggestion: SuggestionView,
    producer: int,
    id: Seq<char>,
) -> bool {
    &&& 0 <= producer < buildings.len()
    &&& produces(buildings[producer].1, id)
    &&& lookup(resources, id) matches Some(resource)
    &&& suggestion == suggestion_for(buildings[producer].1, id, resource.name, suggestion.deficit)
}

/// Whether `suggestion` names a building of the catalog and a known resource
/// that it produces, with as many batches as the suggestion's deficit divided
/// by the building's rate, rounded up.
pub open spec fn is_made(
    resources: Resources,
    buildings: Buildings,
    suggestion: SuggestionView,
) -> bool {
    exists|producer: int, id: Seq<char>| made_by(resources, buildings, suggestion, producer, id)
}

/// Whether every suggestion of `plan` is made by a building of the catalog.
pub open spec fn each_made(
    resources: Resources,
    buildings: Buildings,
    plan: Seq<SuggestionView>,
) -> bool {
    forall|i: int| 0 <= i < plan.len() ==> is_made(resources, buildings, #[trigger] plan[i])
}

/// Whether `outcome`, where it is a plan, holds only suggestions that are made
/// by a building of the catalog.
pub open spec fn all_made(resources: Resources, buildings: Buildings, outcome: Outcome) -> bool {
    outcome matches Ok(plan) ==> each_made(resources, buildings, plan)
}

proof fn lemma_each_made_joined(
    resources: Resources,
    buildings: Buildings,
    front: Seq<SuggestionView>,
    back: Seq<SuggestionView>,
)
    requires
        each_made(resources, buildings, front),
        each_made(resources, buildings, back),
    ensures
        each_made(resources, buildings, front + back),
{
    let joined = front + back;
    assert forall|i: int| 0 <= i < joined.len() implies is_made(
        resources,
        buildings,
        #[trigger] joined[i],
    ) by {
        if i < front.len() {
            assert(joined[i] == front[i]);
        } else {
            assert(joined[i] == back[i - front.len()]);
        }
    }
}

/// Every suggestion in a plan comes from a building that produces the
/// suggestion's target, and its quantity is the ceiling of its deficit over
/// that building's rate: enough batches to cover the deficit, and not one
/// more. A building with rate zero gets quantity zero.
pub proof fn lemma_quantities_are_ceilings(
    resources: Resources,
    buildings: Buildings,
    visiting: Set<Seq<char>>,
    id: Seq<char>,
    deficit: nat,
)
    ensures
        all_made(resources, buildings, resolve(resources, buildings, visiting, id, deficit)),
    decreases unvisited(resources, visiting), 0nat, 0nat,
{
    if lookup(resources, id) is Some && !visiting.contains(id) {
        lemma_unvisited_decreases(resources, visiting, id);
        lemma_producers_are_made(
            resources,
            buildings,
            visiting.insert(id),
            id,
            deficit,
            buildings.len(),
        );
    }
}

proof fn lemma_producers_are_made(
    resources: Resources,
    buildings: Buildings,
    visiting: Set<Seq<char>>,
    id: Seq<char>,
    deficit: nat,
    count: nat,
)
    requires
        lookup(resources, id) is Some,
    ensures
        all_made(
            resources,
            buildings,
            resolve_producers(
                resources,
                buildings,
                visiting,
                id,
                lookup(resources, id).unwrap().name,
                deficit,
                count,
            ),
        ),
    decreases unvisited(resources, visiting), 3nat, count,
{
    if 0 < count <= buildings.len() {
        lemma_producers_are_made(
            resources,
            buildings,
            visiting,
            id,
            deficit,
            (count - 1) as nat,
        );
        let target = lookup(resources, id).unwrap().name;
        let before = resolve_producers(
            resources,
            buildings,
            visiting,
            id,
            target,
            deficit,
            (count - 1) as nat,
        );
        if produces(buildings[count - 1].1, id) {
            lemma_building_is_made(resources, buildings, visiting, id, deficit, count - 1);
            let own = resolve_building(
                resources,
                buildings,
                visiting,
                id,
                target,
                deficit,
                buildings[count - 1].1,
            );
            if before is Ok && own is Ok {
                lemma_each_made_joined(resources, buildings, before->Ok_0, own->Ok_0);
            }
        }
    }
}

proof fn lemma_building_is_made(
    resources: Resources,
    buildings: Buildings,
    visiting: Set<Seq<char>>,
    id: Seq<char>,
    deficit: nat,
    producer: int,
)
    requires
        lookup(resources, id) is Some,
        0 <= producer < buildings.len(),
        produces(buildings[producer].1, id),
    ensures
        all_made(
            resources,
            buildings,
            resolve_building(
                resources,
                buildings,
                visiting,
                id,
                lookup(resources, id).unwrap().name,
                deficit,
                buildings[producer].1,
            ),
        ),
    decreases unvisited(resources, visiting), 2nat, 0nat,
{
    let building = buildings[producer].1;
    let target = lookup(resources, id).unwrap().name;
    let batches = batches_for(deficit, output_rate(building, id));
    lemma_inputs_are_made(
        resources,
        buildings,
        visiting,
        building.inputs,
        batches,
        building.inputs.len(),
    );
    let own = suggestion_for(building, id, target, deficit);
    assert(made_by(resources, buildings, own, producer, id));
    let supplies = resolve_inputs(
        resources,
        buildings,
        visiting,
        building.inputs,
        batches,
        building.inputs.len(),
    );
    if supplies is Ok {
        assert(each_made(resources, buildings, seq![own]));
        lemma_each_made_joined(resources, buildings, supplies->Ok_0, seq![own]);
        assert(supplies->Ok_0.push(own) =~= supplies->Ok_0 + seq![own]);
    }
}

proof fn lemma_inputs_are_made(
    resources: Resources,
    buildings: Buildings,
    visiting: Set<Seq<char>>,
    inputs: Seq<FlowView>,
    batches: nat,
    count: nat,
)
    ensures
        all_made(
            resources,
            buildings,
            resolve_inputs(resources, buildings, visiting, inputs, batches, count),
        ),
    decreases unvisited(resources, visiting), 1nat, count,
{
    if 0 < count <= inputs.len() {
        lemma_inputs_are_made(
            resources,
            buildings,
            visiting,
            inputs,
            batches,
            (count - 1) as nat,
        );
        let input = inputs[count - 1];
        let demand = input.quantity * batches;
        lemma_quantities_are_ceilings(resources, buildings, visiting, input.resource_id, demand);
        let before = resolve_inputs(
            resources,
            buildings,
            visiting,
            inputs,
            batches,
            (count - 1) as nat,
        );
        let own = resolve(resources, buildings, visiting, input.resource_id, demand);
        if before is Ok && own is Ok {
            lemma_each_made_joined(resources, buildings, before->Ok_0, own->Ok_0);
        }
    }
}

/// The quantity of a suggestion for a building that yields something covers
/// the suggestion's deficit, and one batch fewer would not.
pub proof fn lemma_quantity_covers_deficit(
    resources: Resources,
    buildings: Buildings,
    suggestion: SuggestionView,
    producer: int,
    id: Seq<char>,
)
    requires
        made_by(resources, buildings, suggestion, producer, id),
        output_rate(buildings[producer].1, id) > 0,
    ensures
        suggestion.quantity * output_rate(buildings[producer].1, id) >= suggestion.deficit,
        (suggestion.quantity - 1) * output_rate(buildings[producer].1, id) < suggestion.deficit,
{
    lemma_batches_cover(suggestion.deficit, output_rate(buildings[producer].1, id));
}

} // verus!
