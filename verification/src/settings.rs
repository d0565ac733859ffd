//! The workspace part of the configuration.
use crate::layout::LayoutMode;
use crate::selectors::DisplaySelection;
use crate::selectors::DisplaySelector;
use crate::selectors::Selection;
use crate::selectors::WorkspaceSelector;
use vstd::prelude::*;

verus! {

/// The most workspaces that a space, or the shared pool, can be given.
pub const MAX_WORKSPACES: usize = 32;

/// The layout mode of the workspaces that a selector picks.
#[derive(PartialEq, Eq, Debug)]
pub struct WorkspaceLayoutRule {
    pub workspace: WorkspaceSelector,
    pub layout: LayoutMode,
}

/// What a [`WorkspaceLayoutRule`] says.
pub struct LayoutRule {
    pub workspace: Selection,
    pub layout: LayoutMode,
}

impl Clone for WorkspaceLayoutRule {
    fn clone(&self) -> (r: Self)
        ensures
            r == *self,
    {
        WorkspaceLayoutRule { workspace: self.workspace.clone(), layout: self.layout }
    }
}

impl View for WorkspaceLayoutRule {
    type V = LayoutRule;

    open spec fn view(&self) -> LayoutRule {
        LayoutRule { workspace: self.workspace@, layout: self.layout }
    }
}

/// The display that is to own a workspace of the shared pool.
#[derive(PartialEq, Eq, Debug)]
pub struct WorkspaceDisplayAssignment {
    pub workspace: WorkspaceSelector,
    pub display: DisplaySelector,
}

/// What a [`WorkspaceDisplayAssignment`] says.
pub struct DisplayAssignment {
    pub workspace: Selection,
    pub display: DisplaySelection,
}

impl Clone for WorkspaceDisplayAssignment {
    fn clone(&self) -> (r: Self)
        ensures
            r == *self,
    {
        WorkspaceDisplayAssignment { workspace: self.workspace.clone(), display: self.display.clone() }
    }
}

impl View for WorkspaceDisplayAssignment {
    type V = DisplayAssignment;

    open spec fn view(&self) -> DisplayAssignment {
        DisplayAssignment { workspace: self.workspace@, display: self.display@ }
    }
}

#[derive(Clone, PartialEq, Eq, Debug)]
pub struct VirtualWorkspaceSettings {
    /// How many workspaces a space, or the shared pool, starts with.
    pub default_workspace_count: usize,
    /// Names of the first workspaces.
    pub workspace_names: Vec<String>,
    /// The workspace that a new space shows.
    pub default_workspace: usize,
    pub workspace_auto_back_and_forth: bool,
    /// Stepping stops at either end instead of going round.
    pub prevent_wrapping: bool,
    /// The last rule that picks a workspace decides its layout mode.
    pub workspace_rules: Vec<WorkspaceLayoutRule>,
    /// All displays share one pool of workspaces.
    pub shared_across_displays: bool,
    pub workspace_display_assignment: Vec<WorkspaceDisplayAssignment>,
}

impl Default for VirtualWorkspaceSettings {
    fn default() -> (r: Self)
        ensures
            r.default_workspace_count == 4,
            r.workspace_names@.len() == 0,
            r.default_workspace == 0,
            !r.workspace_auto_back_and_forth,
            !r.prevent_wrapping,
            r.workspace_rules@.len() == 0,
            !r.shared_across_displays,
            r.workspace_display_assignment@.len() == 0,
    {
        VirtualWorkspaceSettings {
            default_workspace_count: 4,
            workspace_names: Vec::new(),
            default_workspace: 0,
            workspace_auto_back_and_forth: false,
            prevent_wrapping: false,
            workspace_rules: Vec::new(),
            shared_across_displays: false,
            workspace_display_assignment: Vec::new(),
        }
    }
}

/// The texts of a list of strings.
pub open spec fn texts(names: Seq<String>) -> Seq<Seq<char>> {
    names.map_values(|name: String| name@)
}

/// What a list of layout rules says.
pub open spec fn rules_said(rules: Seq<WorkspaceLayoutRule>) -> Seq<LayoutRule> {
    rules.map_values(|rule: WorkspaceLayoutRule| rule@)
}

/// What a list of display assignments says.
pub open spec fn assignments_said(assignments: Seq<WorkspaceDisplayAssignment>) -> Seq<
    DisplayAssignment,
> {
    assignments.map_values(|assignment: WorkspaceDisplayAssignment| assignment@)
}

} // verus!
