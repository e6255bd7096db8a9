//! A plan that gathers the suggestions for several goals against one pair of
//! catalogs.

use vstd::prelude::*;
use crate::model::{
    resolve, suggestion_views, Buildings, ResolveError, Resources, Suggestion, SuggestionView,
};
use crate::resolver::{get_suggestions, BuildingRepo, ResourceRepo};

verus! {

/// The suggestions gathered so far, and the catalogs they were resolved
/// against. The catalogs are fixed when the plan is made.
pub struct Plan {
    pub suggestions: Vec<Suggestion>,
    resources: ResourceRepo,
    buildings: BuildingRepo,
}

/// Mathematical value of a [`Plan`].
pub struct PlanView {
    pub suggestions: Seq<SuggestionView>,
    pub resources: Resources,
    pub buildings: Buildings,
}

impl View for Plan {
    type V = PlanView;

    closed spec fn view(&self) -> PlanView {
        PlanView {
            suggestions: suggestion_views(self.suggestions@),
            resources: self.resources@,
            buildings: self.buildings@,
        }
    }
}

impl Plan {
    /// A plan without suggestions over the two catalogs.
    #[must_use]
    pub fn new(resources: ResourceRepo, buildings: BuildingRepo) -> (plan: Plan)
        ensures
            plan@.suggestions == Seq::<SuggestionView>::empty(),
            plan@.resources == resources@,
            plan@.buildings == buildings@,
    {
        let plan = Plan { suggestions: Vec::new(), resources, buildings };
        assert(suggestion_views(plan.suggestions@) =~= Seq::<SuggestionView>::empty());
        plan
    }

    /// The suggestions gathered so far, oldest goal first.
    pub fn suggestions(&self) -> (list: &Vec<Suggestion>)
        ensures
            suggestion_views(list@) == self@.suggestions,
    {
        &self.suggestions
    }

    /// Resolves `quantity` units of the resource `resource_id` and appends
    /// what that yields to the plan's suggestions, after those already there.
    /// Goals are independent: nothing is merged with earlier suggestions.
    /// Where the goal has no plan, the suggestions stay as they were.
    pub fn add_goal(&mut self, resource_id: &str, quantity: u32) -> (result: Result<
        (),
        ResolveError,
    >)
        ensures
            final(self)@.resources == old(self)@.resources,
            final(self)@.buildings == old(self)@.buildings,
            match resolve(
                old(self)@.resources,
                old(self)@.buildings,
                Set::empty(),
                resource_id@,
                quantity as nat,
            ) {
                Ok(plan) => {
                    &&& result is Ok
                    &&& final(self)@.suggestions == old(self)@.suggestions + plan
                },
                Err(e) => {
                    &&& result == Err::<(), ResolveError>(e)
                    &&& *final(self) == *old(self)
                },
            },
    {
        match get_suggestions(resource_id, quantity, &self.resources, &self.buildings) {
            Ok(found) => {
                let mut found = found;
                let ghost before = self.suggestions@;
                let ghost added = found@;
                self.suggestions.append(&mut found);
                assert(suggestion_views(before + added) =~= suggestion_views(before)
                    + suggestion_views(added));
                Ok(())
            },
            Err(e) => Err(e),
        }
    }
}

} // verus!
