//! How configuration and commands point at workspaces and displays.
use vstd::prelude::*;

verus! {

#[derive(Clone, Copy, PartialEq, Eq, Structural, Debug)]
pub enum Direction {
    Left,
    Right,
    Up,
    Down,
}

/// A workspace, by its place in an order or by its name.
#[derive(PartialEq, Eq, Debug)]
pub enum WorkspaceSelector {
    Index(usize),
    Name(String),
}

/// What a [`WorkspaceSelector`] says.
pub enum Selection {
    Index(nat),
    Name(Seq<char>),
}

impl View for WorkspaceSelector {
    type V = Selection;

    open spec fn view(&self) -> Selection {
        match self {
            WorkspaceSelector::Index(index) => Selection::Index(*index as nat),
            WorkspaceSelector::Name(name) => Selection::Name(name@),
        }
    }
}

impl Clone for WorkspaceSelector {
    fn clone(&self) -> (r: Self)
        ensures
            r == *self,
    {
        match self {
            WorkspaceSelector::Index(index) => WorkspaceSelector::Index(*index),
            WorkspaceSelector::Name(name) => WorkspaceSelector::Name(name.clone()),
        }
    }
}

#[derive(Clone, Copy, PartialEq, Eq, Structural, Debug)]
pub enum RestoreScope {
    Workspace,
    Space,
}

#[derive(Clone, Copy, PartialEq, Eq, Structural, Debug)]
pub enum RestoreSource {
    SavedActiveSpace,
    CurrentSpace,
}

impl Default for RestoreSource {
    fn default() -> (r: Self)
        ensures
            r == RestoreSource::SavedActiveSpace,
    {
        RestoreSource::SavedActiveSpace
    }
}

/// Cycles through the attached displays in physical order, wrapping at either end.
/// A direction cannot do this: from the rightmost display there is nothing to the right.
#[derive(Clone, Copy, PartialEq, Eq, Structural, Debug)]
pub enum DisplayCycle {
    Next,
    Prev,
}

/// A display.
#[derive(PartialEq, Eq, Debug)]
pub enum DisplaySelector {
    Direction(Direction),
    /// Stands ahead of `Uuid`, so that "next" is read as a cycle and not as a
    /// UUID that matches no display.
    Cycle(DisplayCycle),
    Index(usize),
    Uuid(String),
}

/// What a [`DisplaySelector`] says.
pub enum DisplaySelection {
    Direction(Direction),
    Cycle(DisplayCycle),
    Index(nat),
    Uuid(Seq<char>),
}

impl View for DisplaySelector {
    type V = DisplaySelection;

    open spec fn view(&self) -> DisplaySelection {
        match self {
            DisplaySelector::Direction(direction) => DisplaySelection::Direction(*direction),
            DisplaySelector::Cycle(cycle) => DisplaySelection::Cycle(*cycle),
            DisplaySelector::Index(index) => DisplaySelection::Index(*index as nat),
            DisplaySelector::Uuid(uuid) => DisplaySelection::Uuid(uuid@),
        }
    }
}

impl Clone for DisplaySelector {
    fn clone(&self) -> (r: Self)
        ensures
            r == *self,
    {
        match self {
            DisplaySelector::Direction(direction) => DisplaySelector::Direction(*direction),
            DisplaySelector::Cycle(cycle) => DisplaySelector::Cycle(*cycle),
            DisplaySelector::Index(index) => DisplaySelector::Index(*index),
            DisplaySelector::Uuid(uuid) => DisplaySelector::Uuid(uuid.clone()),
        }
    }
}

} // verus!
