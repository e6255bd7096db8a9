//! What a production plan is, as mathematics: the suggestions that resolving a
//! deficit yields, over the views of the two catalogs.

use vstd::prelude::*;
use crate::repo::{is_first_at, lookup, position};
use crate::vic::{BuildingView, FlowView, ResourceView};

verus! {

/// Why a deficit has no plan.
#[derive(Clone, Copy, Debug, PartialEq, Eq, Structural)]
pub enum ResolveError {
    /// A production path came back to a resource that it is already resolving.
    CyclicDependency,
    /// The demand that a building puts on one of its inputs exceeds `u32::MAX`.
    DeficitOverflow,
}

/// One recommended action: build `quantity` batches of the building named
/// `solution` to cover `deficit` units of the resource named `target`.
#[derive(Clone, Debug, PartialEq, Eq)]
pub struct Suggestion {
    pub deficit: u32,
    pub quantity: usize,
    pub solution: String,
    pub target: String,
}

/// Mathematical value of a [`Suggestion`].
pub struct SuggestionView {
    pub deficit: nat,
    pub quantity: nat,
    pub solution: Seq<char>,
    pub target: Seq<char>,
}

impl View for Suggestion {
    type V = SuggestionView;

    open spec fn view(&self) -> SuggestionView {
        SuggestionView {
            deficit: self.deficit as nat,
            quantity: self.quantity as nat,
            solution: self.solution@,
            target: self.target@,
        }
    }
}

/// The views of a list of suggestions, in order.
pub open spec fn suggestion_views(list: Seq<Suggestion>) -> Seq<SuggestionView> {
    list.map_values(|s: Suggestion| s@)
}

/// A resource catalog as mathematics: identifiers with resources, in order.
pub type Resources = Seq<(Seq<char>, ResourceView)>;

/// A building catalog as mathematics: identifiers with buildings, in order.
pub type Buildings = Seq<(Seq<char>, BuildingView)>;

/// A plan, or the reason why there is none.
pub type Outcome = Result<Seq<SuggestionView>, ResolveError>;

/// The flows of a building keyed by their resource.
pub open spec fn by_resource(flows: Seq<FlowView>) -> Seq<(Seq<char>, nat)> {
    flows.map_values(|f: FlowView| (f.resource_id, f.quantity))
}

/// Whether `building` lists `id` among its outputs.
pub open spec fn produces(building: BuildingView, id: Seq<char>) -> bool {
    lookup(by_resource(building.outputs), id) is Some
}

/// What one batch of `building` yields of `id`: the quantity of its first
/// output of that resource, and nothing where it has none.
pub open spec fn output_rate(building: BuildingView, id: Seq<char>) -> nat {
    match lookup(by_resource(building.outputs), id) {
        Some(quantity) => quantity,
        None => 0,
    }
}

/// Number of batches that cover `deficit` at `rate` units per batch: the
/// quotient rounded up, and zero for a building that yields nothing.
pub open spec fn batches_for(deficit: nat, rate: nat) -> nat {
    if rate == 0 {
        0
    } else {
        ((deficit + rate - 1) / (rate as int)) as nat
    }
}

/// The batches cover the deficit, and one batch fewer would not.
pub proof fn lemma_batches_cover(deficit: nat, rate: nat)
    requires
        rate > 0,
    ensures
        batches_for(deficit, rate) * rate >= deficit,
        (batches_for(deficit, rate) - 1) * rate < deficit,
        batches_for(deficit, rate) <= deficit,
{
    let q = (deficit + rate - 1) / (rate as int);
    let r = (deficit + rate - 1) % (rate as int);
    assert(deficit + rate - 1 == q * rate + r && 0 <= r < rate) by (nonlinear_arith)
        requires
            rate > 0,
            q == (deficit + rate - 1) / (rate as int),
            r == (deficit + rate - 1) % (rate as int),
    ;
    assert(q >= 0 && q * rate >= deficit && (q - 1) * rate < deficit && q <= deficit)
        by (nonlinear_arith)
        requires
            deficit + rate - 1 == q * rate + r,
            0 <= r < rate,
            deficit >= 0,
    ;
}

/// Only one number of batches covers the deficit with none to spare.
pub proof fn lemma_batches_unique(deficit: nat, rate: nat, batches: nat)
    requires
        rate > 0,
        batches * rate >= deficit,
        (batches - 1) * rate < deficit,
    ensures
        batches == batches_for(deficit, rate),
{
    lemma_batches_cover(deficit, rate);
    let q = batches_for(deficit, rate);
    assert(batches == q) by (nonlinear_arith)
        requires
            rate > 0,
            batches * rate >= deficit,
            (batches - 1) * rate < deficit,
            q * rate >= deficit,
            (q - 1) * rate < deficit,
    ;
}

/// Number of catalog entries whose resource is not being resolved.
pub open spec fn unvisited(resources: Resources, visiting: Set<Seq<char>>) -> nat
    decreases resources.len(),
{
    if resources.len() == 0 {
        0
    } else {
        let rest = unvisited(resources.drop_last(), visiting);
        if visiting.contains(resources.last().0) {
            rest
        } else {
            rest + 1
        }
    }
}

/// Starting to resolve a known resource leaves fewer entries unvisited.
pub proof fn lemma_unvisited_decreases(
    resources: Resources,
    visiting: Set<Seq<char>>,
    id: Seq<char>,
)
    requires
        lookup(resources, id) is Some,
        !visiting.contains(id),
    ensures
        unvisited(resources, visiting.insert(id)) < unvisited(resources, visiting),
    decreases resources.len(),
{
    lemma_unvisited_monotone(resources, visiting, id);
    let i = position(resources, id).unwrap();
    assert(is_first_at(resources, id, i));
    if i == resources.len() - 1 {
        lemma_unvisited_monotone(resources.drop_last(), visiting, id);
    } else {
        let shorter = resources.drop_last();
        assert(is_first_at(shorter, id, i));
        lemma_unvisited_decreases(shorter, visiting, id);
    }
}

/// Resolving one more resource never leaves more entries unvisited.
pub proof fn lemma_unvisited_monotone(
    resources: Resources,
    visiting: Set<Seq<char>>,
    id: Seq<char>,
)
    ensures
        unvisited(resources, visiting.insert(id)) <= unvisited(resources, visiting),
    decreases resources.len(),
{
    if resources.len() > 0 {
        lemma_unvisited_monotone(resources.drop_last(), visiting, id);
    }
}

/// The plan for `deficit` units of the resource `id`, while the resources in
/// `visiting` are being resolved further up.
///
/// A resource that the catalog does not know needs no action. One that is
/// already being resolved closes a cycle. Otherwise every building that
/// produces it contributes, in catalog order.
pub open spec fn resolve(
    resources: Resources,
    buildings: Buildings,
    visiting: Set<Seq<char>>,
    id: Seq<char>,
    deficit: nat,
) -> Outcome
    decreases unvisited(resources, visiting), 0nat, 0nat,
{
    match lookup(resources, id) {
        None => Ok(Seq::empty()),
        Some(resource) => {
            if visiting.contains(id) {
                Err(ResolveError::CyclicDependency)
            } else {
                proof {
                    lemma_unvisited_decreases(resources, visiting, id);
                }
                resolve_producers(
                    resources,
                    buildings,
                    visiting.insert(id),
                    id,
                    resource.name,
                    deficit,
                    buildings.len(),
                )
            }
        },
    }
}

/// What the first `count` buildings of the catalog contribute to `deficit`
/// units of the resource `id`, named `target`: the plans of those that
/// produce it, one after the other.
pub open spec fn resolve_producers(
    resources: Resources,
    buildings: Buildings,
    visiting: Set<Seq<char>>,
    id: Seq<char>,
    target: Seq<char>,
    deficit: nat,
    count: nat,
) -> Outcome
    decreases unvisited(resources, visiting), 3nat, count,
{
    if count == 0 || count > buildings.len() {
        Ok(Seq::empty())
    } else {
        let building = buildings[count - 1].1;
        match resolve_producers(
            resources,
            buildings,
            visiting,
            id,
            target,
            deficit,
            (count - 1) as nat,
        ) {
            Err(e) => Err(e),
            Ok(before) => {
                if !produces(building, id) {
                    Ok(before)
                } else {
                    match resolve_building(
                        resources,
                        buildings,
                        visiting,
                        id,
                        target,
                        deficit,
                        building,
                    ) {
                        Err(e) => Err(e),
                        Ok(own) => Ok(before + own),
                    }
                }
            },
        }
    }
}

/// The plan that has `building` cover `deficit` units of the resource `id`:
/// what its inputs need for the batches it must run, then the building itself.
pub open spec fn resolve_building(
    resources: Resources,
    buildings: Buildings,
    visiting: Set<Seq<char>>,
    id: Seq<char>,
    target: Seq<char>,
    deficit: nat,
    building: BuildingView,
) -> Outcome
    decreases unvisited(resources, visiting), 2nat, 0nat,
{
    let batches = batches_for(deficit, output_rate(building, id));
    match resolve_inputs(
        resources,
        buildings,
        visiting,
        building.inputs,
        batches,
        building.inputs.len(),
    ) {
        Err(e) => Err(e),
        Ok(supplies) => Ok(
            supplies.push(
                SuggestionView {
                    deficit,
                    quantity: batches,
                    solution: building.name,
                    target,
                },
            ),
        ),
    }
}

/// The plans for what `batches` batches consume of the first `count` of
/// `inputs`, one after the other.
pub open spec fn resolve_inputs(
    resources: Resources,
    buildings: Buildings,
    visiting: Set<Seq<char>>,
    inputs: Seq<FlowView>,
    batches: nat,
    count: nat,
) -> Outcome
    decreases unvisited(resources, visiting), 1nat, count,
{
    if count == 0 || count > inputs.len() {
        Ok(Seq::empty())
    } else {
        let input = inputs[count - 1];
        let demand = input.quantity * batches;
        match resolve_inputs(
            resources,
            buildings,
            visiting,
            inputs,
            batches,
            (count - 1) as nat,
        ) {
            Err(e) => Err(e),
            Ok(before) => {
                if demand > u32::MAX {
                    Err(ResolveError::DeficitOverflow)
                } else {
                    match resolve(resources, buildings, visiting, input.resource_id, demand) {
                        Err(e) => Err(e),
                        Ok(own) => Ok(before + own),
                    }
                }
            },
        }
    }
}

/// Once the producers fail, considering more buildings changes nothing.
pub proof fn lemma_producers_error_sticks(
    resources: Resources,
    buildings: Buildings,
    visiting: Set<Seq<char>>,
    id: Seq<char>,
    target: Seq<char>,
    deficit: nat,
    failed: nat,
    count: nat,
)
    requires
        failed <= count <= buildings.len(),
        resolve_producers(resources, buildings, visiting, id, target, deficit, failed) is Err,
    ensures
        resolve_producers(resources, buildings, visiting, id, target, deficit, count)
            == resolve_producers(resources, buildings, visiting, id, target, deficit, failed),
    decreases count - failed,
{
    if failed < count {
        lemma_producers_error_sticks(
            resources,
            buildings,
            visiting,
            id,
            target,
            deficit,
            failed,
            (count - 1) as nat,
        );
    }
}

/// Once the inputs fail, considering more of them changes nothing.
pub proof fn lemma_inputs_error_sticks(
    resources: Resources,
    buildings: Buildings,
    visiting: Set<Seq<char>>,
    inputs: Seq<FlowView>,
    batches: nat,
    failed: nat,
    count: nat,
)
    requires
        failed <= count <= inputs.len(),
        resolve_inputs(resources, buildings, visiting, inputs, batches, failed) is Err,
    ensures
        resolve_inputs(resources, buildings, visiting, inputs, batches, count) == resolve_inputs(
            resources,
            buildings,
            visiting,
            inputs,
            batches,
            failed,
        ),
    decreases count - failed,
{
    if failed < count {
        lemma_inputs_error_sticks(
            resources,
            buildings,
            visiting,
            inputs,
            batches,
            failed,
            (count - 1) as nat,
        );
    }
}

} // verus!
