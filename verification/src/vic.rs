//! The records that describe an economy: resources, and buildings with the
//! resources they consume and yield per production batch.

use vstd::prelude::*;

verus! {

/// A tradeable good. Its identifier is the key under which a catalog holds it.
#[derive(Clone, Debug, Default, PartialEq, Eq)]
pub struct Resource {
    pub name: String,
}

/// What one production batch of a building consumes of one resource.
#[derive(Clone, Debug, Default, PartialEq, Eq)]
pub struct Input {
    pub resource_id: String,
    pub quantity: u32,
}

/// What one production batch of a building yields of one resource.
#[derive(Clone, Debug, Default, PartialEq, Eq)]
pub struct Output {
    pub resource_id: String,
    pub quantity: u32,
}

/// A production building: per batch it consumes every input and yields every
/// output. A building without inputs extracts raw material.
#[derive(Clone, Debug, Default, PartialEq, Eq)]
pub struct Building {
    pub name: String,
    pub inputs: Vec<Input>,
    pub outputs: Vec<Output>,
}

/// Mathematical value of a [`Resource`].
pub struct ResourceView {
    pub name: Seq<char>,
}

/// Mathematical value of an [`Input`] or an [`Output`]: a resource and the
/// amount of it that one batch moves.
pub struct FlowView {
    pub resource_id: Seq<char>,
    pub quantity: nat,
}

/// Mathematical value of a [`Building`].
pub struct BuildingView {
    pub name: Seq<char>,
    pub inputs: Seq<FlowView>,
    pub outputs: Seq<FlowView>,
}

impl View for Resource {
    type V = ResourceView;

    open spec fn view(&self) -> ResourceView {
        ResourceView { name: self.name@ }
    }
}

impl View for Input {
    type V = FlowView;

    open spec fn view(&self) -> FlowView {
        FlowView { resource_id: self.resource_id@, quantity: self.quantity as nat }
    }
}

impl View for Output {
    type V = FlowView;

    open spec fn view(&self) -> FlowView {
        FlowView { resource_id: self.resource_id@, quantity: self.quantity as nat }
    }
}

impl View for Building {
    type V = BuildingView;

    open spec fn view(&self) -> BuildingView {
        BuildingView {
            name: self.name@,
            inputs: self.inputs@.map_values(|i: Input| i@),
            outputs: self.outputs@.map_values(|o: Output| o@),
        }
    }
}

} // verus!
