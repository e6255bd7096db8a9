//! The resolver: from a deficit of one resource to the buildings that cover
//! it, expanded through everything those buildings consume.

use vstd::prelude::*;
use crate::model::{
    batches_for, by_resource, lemma_batches_cover, lemma_batches_unique,
    lemma_inputs_error_sticks, lemma_producers_error_sticks, lemma_unvisited_decreases,
    output_rate, produces, resolve, resolve_building, resolve_inputs, resolve_producers,
    suggestion_views, unvisited, Outcome, ResolveError, Suggestion, SuggestionView,
};
use crate::repo::{
    lemma_position_absent, lemma_position_is_first, lemma_position_same_ids, lookup, Repo,
};
use crate::vic::{Building, Resource};

verus! {

/// The catalog of resources, by resource identifier.
pub type ResourceRepo = Repo<Resource>;

/// The catalog of buildings, by building identifier.
pub type BuildingRepo = Repo<Building>;

/// The least number of batches whose yield at `rate` units each reaches
/// `deficit`; zero where `rate` is zero.
pub fn batches_needed(deficit: u32, rate: u32) -> (batches: u32)
    ensures
        batches == batches_for(deficit as nat, rate as nat),
        rate > 0 ==> batches * rate >= deficit && (batches - 1) * rate < deficit,
        rate == 0 ==> batches == 0,
        batches <= deficit,
{
    if rate == 0 {
        0
    } else {
        proof {
            lemma_batches_cover(deficit as nat, rate as nat);
        }
        let whole = deficit / rate;
        let rest = deficit % rate;
        assert({
            &&& deficit == whole * rate + rest
            &&& (whole + 1) * rate == whole * rate + rate
            &&& (whole - 1) * rate == whole * rate - rate
        }) by (nonlinear_arith)
            requires
                rate > 0,
                whole == deficit / rate,
                rest == deficit % rate,
        ;
        if rest == 0 {
            proof {
                lemma_batches_unique(deficit as nat, rate as nat, whole as nat);
            }
            whole
        } else {
            proof {
                lemma_batches_unique(deficit as nat, rate as nat, (whole + 1) as nat);
            }
            whole + 1
        }
    }
}

/// The resources that the identifiers on `path` name.
pub open spec fn visiting(path: Seq<String>) -> Set<Seq<char>> {
    Set::new(|id: Seq<char>| exists|i: int| 0 <= i < path.len() && (#[trigger] path[i])@ == id)
}

/// One more identifier on the path is one more resource being resolved.
proof fn lemma_visiting_grows(path: Seq<String>, id: String)
    ensures
        visiting(path.push(id)) == visiting(path).insert(id@),
{
    let longer = path.push(id);
    assert forall|x: Seq<char>| visiting(longer).contains(x) implies visiting(path).insert(
        id@,
    ).contains(x) by {
        let i = choose|i: int| 0 <= i < longer.len() && (#[trigger] longer[i])@ == x;
        if i < path.len() {
            assert(path[i]@ == x);
        }
    }
    assert forall|x: Seq<char>| visiting(path).insert(id@).contains(x) implies visiting(
        longer,
    ).contains(x) by {
        if x == id@ {
            assert(longer[path.len() as int]@ == x);
        } else {
            let i = choose|i: int| 0 <= i < path.len() && (#[trigger] path[i])@ == x;
            assert(longer[i]@ == x);
        }
    }
    assert(visiting(longer) =~= visiting(path).insert(id@));
}

/// Whether `id` is one of the identifiers on `path`.
fn on_path(path: &Vec<String>, id: &String) -> (found: bool)
    ensures
        found == visiting(path@).contains(id@),
{
    let n = path.len();
    let mut i: usize = 0;
    while i < n
        invariant
            n == path@.len(),
            i <= n,
            forall|j: int| 0 <= j < i ==> (#[trigger] path@[j])@ != id@,
        decreases n - i,
    {
        if path[i] == *id {
            return true;
        }
        i += 1;
    }
    false
}

/// What one batch of `building` yields of the resource `id`, if it lists it
/// among its outputs.
fn rate_of(building: &Building, id: &String) -> (rate: Option<u32>)
    ensures
        rate is Some <==> produces(building@, id@),
        rate matches Some(quantity) ==> quantity == output_rate(building@, id@),
{
    let ghost flows = by_resource(building@.outputs);
    let n = building.outputs.len();
    let mut i: usize = 0;
    while i < n
        invariant
            n == building.outputs@.len(),
            i <= n,
            flows == by_resource(building@.outputs),
            forall|j: int| 0 <= j < i ==> (#[trigger] flows[j]).0 != id@,
        decreases n - i,
    {
        if building.outputs[i].resource_id == *id {
            proof {
                lemma_position_is_first(flows, id@, i as int);
            }
            return Some(building.outputs[i].quantity);
        }
        i += 1;
    }
    proof {
        lemma_position_absent(flows, id@);
    }
    None
}

/// Appends to `out` the plan for `deficit` units of the resource `id`, with
/// `path` holding the resources that are being resolved further up.
fn resolve_into(
    id: &String,
    deficit: u32,
    resources: &ResourceRepo,
    buildings: &BuildingRepo,
    path: &mut Vec<String>,
    out: &mut Vec<Suggestion>,
) -> (result: Result<(), ResolveError>)
    ensures
        match resolve(resources@, buildings@, visiting(old(path)@), id@, deficit as nat) {
            Ok(plan) => {
                &&& result is Ok
                &&& final(path)@ == old(path)@
                &&& suggestion_views(final(out)@) == suggestion_views(old(out)@) + plan
            },
            Err(e) => result == Err::<(), ResolveError>(e),
        },
    decreases unvisited(resources@, visiting(old(path)@)), 0nat, 0nat,
{
    let found = resources.find(id);
    proof {
        lemma_position_same_ids(resources.entries(), resources@, id@);
    }
    let at = match found {
        Some(at) => at,
        None => {
            assert(suggestion_views(out@) + Seq::<SuggestionView>::empty() =~= suggestion_views(out@));
            return Ok(());
        },
    };
    if on_path(path, id) {
        return Err(ResolveError::CyclicDependency);
    }
    let resource = resources.item_at(at);
    let ghost above = path@;
    let ghost start = suggestion_views(out@);
    let ghost target = resources@[at as int].1.name;
    path.push(id.clone());
    let ghost inside = visiting(path@);
    proof {
        lemma_visiting_grows(above, path@.last());
        lemma_unvisited_decreases(resources@, visiting(above), id@);
        assert(start + Seq::<SuggestionView>::empty() =~= start);
    }
    let n = buildings.len();
    let mut k: usize = 0;
    while k < n
        invariant
            n == buildings.entries().len(),
            n == buildings@.len(),
            k <= n,
            path@ == above.push(path@.last()),
            inside == visiting(path@),
            inside == visiting(above).insert(id@),
            !visiting(above).contains(id@),
            unvisited(resources@, inside) < unvisited(resources@, visiting(above)),
            above == old(path)@,
            lookup(resources@, id@) == Some(resource@),
            target == resource@.name,
            resolve_producers(
                resources@,
                buildings@,
                inside,
                id@,
                target,
                deficit as nat,
                k as nat,
            ) matches Ok(plan) && suggestion_views(out@) == start + plan,
        decreases n - k,
    {
        let building = buildings.item_at(k);
        assert(building@ == buildings@[k as int].1);
        let ghost before = resolve_producers(
            resources@,
            buildings@,
            inside,
            id@,
            target,
            deficit as nat,
            k as nat,
        )->Ok_0;
        match rate_of(building, id) {
            Some(rate) => {
                match expand_building(
                    building,
                    id,
                    rate,
                    &resource.name,
                    deficit,
                    resources,
                    buildings,
                    path,
                    out,
                ) {
                    Ok(()) => {
                        let ghost own = resolve_building(
                            resources@,
                            buildings@,
                            inside,
                            id@,
                            target,
                            deficit as nat,
                            building@,
                        )->Ok_0;
                        assert(start + (before + own) =~= (start + before) + own);
                    },
                    Err(e) => {
                        proof {
                            lemma_producers_error_sticks(
                                resources@,
                                buildings@,
                                inside,
                                id@,
                                target,
                                deficit as nat,
                                (k + 1) as nat,
                                n as nat,
                            );
                        }
                        return Err(e);
                    },
                }
            },
            None => {},
        }
        k += 1;
    }
    path.pop();
    assert(path@ =~= above);
    Ok(())
}

/// Appends to `out` the plan that has `building`, which yields `rate` units
/// of the resource `id` per batch, cover `deficit` units of it.
fn expand_building(
    building: &Building,
    id: &String,
    rate: u32,
    target: &String,
    deficit: u32,
    resources: &ResourceRepo,
    buildings: &BuildingRepo,
    path: &mut Vec<String>,
    out: &mut Vec<Suggestion>,
) -> (result: Result<(), ResolveError>)
    requires
        rate == output_rate(building@, id@),
    ensures
        match resolve_building(
            resources@,
            buildings@,
            visiting(old(path)@),
            id@,
            target@,
            deficit as nat,
            building@,
        ) {
            Ok(plan) => {
                &&& result is Ok
                &&& final(path)@ == old(path)@
                &&& suggestion_views(final(out)@) == suggestion_views(old(out)@) + plan
            },
            Err(e) => result == Err::<(), ResolveError>(e),
        },
    decreases unvisited(resources@, visiting(old(path)@)), 2nat, 0nat,
{
    let batches = batches_needed(deficit, rate);
    let ghost start = suggestion_views(out@);
    let ghost inputs = building@.inputs;
    let ghost inside = visiting(path@);
    proof {
        assert(start + Seq::<SuggestionView>::empty() =~= start);
    }
    let n = building.inputs.len();
    let mut j: usize = 0;
    while j < n
        invariant
            n == building.inputs@.len(),
            n == inputs.len(),
            inputs == building@.inputs,
            j <= n,
            path@ == old(path)@,
            inside == visiting(path@),
            batches == batches_for(deficit as nat, output_rate(building@, id@)),
            resolve_inputs(resources@, buildings@, inside, inputs, batches as nat, j as nat)
                matches Ok(plan) && suggestion_views(out@) == start + plan,
        decreases n - j,
    {
        let input = &building.inputs[j];
        assert(input@ == inputs[j as int]);
        let ghost before = resolve_inputs(
            resources@,
            buildings@,
            inside,
            inputs,
            batches as nat,
            j as nat,
        )->Ok_0;
        let demand = match input.quantity.checked_mul(batches) {
            Some(demand) => demand,
            None => {
                proof {
                    lemma_inputs_error_sticks(
                        resources@,
                        buildings@,
                        inside,
                        inputs,
                        batches as nat,
                        (j + 1) as nat,
                        n as nat,
                    );
                }
                return Err(ResolveError::DeficitOverflow);
            },
        };
        match resolve_into(&input.resource_id, demand, resources, buildings, path, out) {
            Ok(()) => {
                let ghost own = resolve(
                    resources@,
                    buildings@,
                    inside,
                    input@.resource_id,
                    demand as nat,
                )->Ok_0;
                assert(start + (before + own) =~= (start + before) + own);
            },
            Err(e) => {
                proof {
                    lemma_inputs_error_sticks(
                        resources@,
                        buildings@,
                        inside,
                        inputs,
                        batches as nat,
                        (j + 1) as nat,
                        n as nat,
                    );
                }
                return Err(e);
            },
        }
        j += 1;
    }
    let ghost supplies = resolve_inputs(
        resources@,
        buildings@,
        inside,
        inputs,
        batches as nat,
        n as nat,
    )->Ok_0;
    let suggestion = Suggestion {
        deficit,
        quantity: batches as usize,
        solution: building.name.clone(),
        target: target.clone(),
    };
    let ghost listed = out@;
    out.push(suggestion);
    assert(suggestion_views(out@) =~= suggestion_views(listed).push(suggestion@));
    assert(start + supplies.push(suggestion@) =~= (start + supplies).push(suggestion@));
    Ok(())
}

/// What [`get_suggestions`] hands back, as mathematics.
pub open spec fn outcome_of(result: Result<Vec<Suggestion>, ResolveError>) -> Outcome {
    match result {
        Ok(list) => Ok(suggestion_views(list@)),
        Err(e) => Err(e),
    }
}

/// The buildings to construct, and how many batches of each, to cover
/// `deficit` units of the resource `resource_id`.
///
/// Every building that produces the resource is listed, in catalog order,
/// each after the plans for what its own batches consume. A resource that
/// `resources` does not hold gives an empty plan. A deficit of zero is
/// resolved like any other, so its suggestions have quantity zero. A
/// production path that returns to a resource it is resolving gives
/// [`ResolveError::CyclicDependency`]; a demand on an input that exceeds
/// `u32::MAX` gives [`ResolveError::DeficitOverflow`].
pub fn get_suggestions(
    resource_id: &str,
    deficit: u32,
    resources: &ResourceRepo,
    buildings: &BuildingRepo,
) -> (result: Result<Vec<Suggestion>, ResolveError>)
    ensures
        outcome_of(result) == resolve(
            resources@,
            buildings@,
            Set::empty(),
            resource_id@,
            deficit as nat,
        ),
{
    let id = resource_id.to_owned();
    let mut path: Vec<String> = Vec::new();
    let mut out: Vec<Suggestion> = Vec::new();
    assert(visiting(path@) =~= Set::<Seq<char>>::empty());
    assert(suggestion_views(out@) =~= Seq::<SuggestionView>::empty());
    match resolve_into(&id, deficit, resources, buildings, &mut path, &mut out) {
        Ok(()) => {
            let ghost plan = resolve(
                resources@,
                buildings@,
                Set::empty(),
                resource_id@,
                deficit as nat,
            )->Ok_0;
            assert(Seq::<SuggestionView>::empty() + plan =~= plan);
            Ok(out)
        },
        Err(e) => Err(e),
    }
}

} // verus!
