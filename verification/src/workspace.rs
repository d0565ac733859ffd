//! One virtual workspace, and what can go wrong with workspaces.
use crate::ids::SpaceId;
use crate::ids::VirtualWorkspaceId;
use crate::ids::WindowId;
use crate::layout::started_system;
use crate::layout::LayoutMode;
use crate::layout::LayoutSettings;
use crate::layout::LayoutSystemKind;
use crate::layout::MasterStackSettings;
use crate::layout::ScrollingSettings;
use std::collections::HashMap;
use vstd::prelude::*;

verus! {

#[derive(Debug, Clone, PartialEq, Eq)]
pub enum WorkspaceError {
    NoWorkspacesAvailable,
    AssignmentFailed,
    InvalidWorkspaceId(VirtualWorkspaceId),
    InvalidWorkspaceIndex(usize),
    InconsistentState(String),
}

/// What a [`WorkspaceError`] says.
#[verifier::ext_equal]
pub enum Failure {
    NoWorkspacesAvailable,
    AssignmentFailed,
    InvalidWorkspaceId(VirtualWorkspaceId),
    InvalidWorkspaceIndex(nat),
    InconsistentState(Seq<char>),
}

impl View for WorkspaceError {
    type V = Failure;

    open spec fn view(&self) -> Failure {
        match self {
            WorkspaceError::NoWorkspacesAvailable => Failure::NoWorkspacesAvailable,
            WorkspaceError::AssignmentFailed => Failure::AssignmentFailed,
            WorkspaceError::InvalidWorkspaceId(id) => Failure::InvalidWorkspaceId(*id),
            WorkspaceError::InvalidWorkspaceIndex(index) => Failure::InvalidWorkspaceIndex(
                *index as nat,
            ),
            WorkspaceError::InconsistentState(text) => Failure::InconsistentState(text@),
        }
    }
}

/// What a result says.
pub open spec fn said<T>(result: Result<T, WorkspaceError>) -> Result<T, Failure> {
    match result {
        Ok(value) => Ok(value),
        Err(error) => Err(error@),
    }
}

/// Workspace-local configuration and layout state.
///
/// This intentionally does not own the set of member windows. Window-to-
/// workspace assignment is authoritative in `WindowStore`; the layout system
/// here is only the arrangement for the windows currently projected into this
/// workspace.
#[derive(Debug)]
pub struct VirtualWorkspace {
    pub name: String,
    pub space: SpaceId,
    pub last_focused: Option<WindowId>,
    pub layout_system: LayoutSystemKind,
    pub layout_mode: LayoutMode,
}

/// What a [`VirtualWorkspace`] holds.
#[verifier::ext_equal]
pub struct WorkspaceState {
    pub name: Seq<char>,
    pub space: SpaceId,
    pub last_focused: Option<WindowId>,
    pub layout_system: LayoutSystemKind,
    pub layout_mode: LayoutMode,
}

impl View for VirtualWorkspace {
    type V = WorkspaceState;

    open spec fn view(&self) -> WorkspaceState {
        WorkspaceState {
            name: self.name@,
            space: self.space,
            last_focused: self.last_focused,
            layout_system: self.layout_system,
            layout_mode: self.layout_mode,
        }
    }
}

impl WorkspaceState {
    /// A workspace as it is created.
    pub open spec fn created(
        name: Seq<char>,
        space: SpaceId,
        mode: LayoutMode,
        settings: LayoutSettings,
    ) -> Self {
        WorkspaceState {
            name,
            space,
            last_focused: None,
            layout_system: started_system(mode, settings),
            layout_mode: mode,
        }
    }

    pub open spec fn named(self, name: Seq<char>) -> Self {
        WorkspaceState { name, ..self }
    }

    pub open spec fn on_space(self, space: SpaceId) -> Self {
        WorkspaceState { space, ..self }
    }

    pub open spec fn focused_last(self, last_focused: Option<WindowId>) -> Self {
        WorkspaceState { last_focused, ..self }
    }
}

/// The layout system of a workspace that was stored without one.
pub fn default_layout_system_kind() -> (r: LayoutSystemKind)
    ensures
        r == started_system(LayoutMode::Traditional, LayoutSettings::standard()),
{
    VirtualWorkspace::create_layout_system(LayoutMode::default(), &LayoutSettings::default())
}

impl VirtualWorkspace {
    pub fn new(name: String, space: SpaceId, mode: LayoutMode, settings: &LayoutSettings) -> (r:
        Self)
        ensures
            r@ == WorkspaceState::created(name@, space, mode, *settings),
    {
        let layout_system = Self::create_layout_system(mode, settings);
        VirtualWorkspace { name, space, last_focused: None, layout_system, layout_mode: mode }
    }

    pub fn tree(&self) -> (r: &LayoutSystemKind)
        ensures
            *r == self.layout_system,
    {
        &self.layout_system
    }

    pub fn tree_mut(&mut self) -> (r: &mut LayoutSystemKind)
        ensures
            *r == old(self).layout_system,
            *final(self) == (VirtualWorkspace { layout_system: *final(r), ..*old(self) }),
    {
        &mut self.layout_system
    }

    pub fn layout_mode(&self) -> (r: LayoutMode)
        ensures
            r == self.layout_mode,
    {
        self.layout_mode
    }

    pub fn create_layout_system(mode: LayoutMode, settings: &LayoutSettings) -> (r:
        LayoutSystemKind)
        ensures
            r == started_system(mode, *settings),
    {
        match mode {
            LayoutMode::Traditional => LayoutSystemKind::Traditional {
                insertion_point: settings.window_insertion_point_for(mode),
                equalize_nodes: settings.traditional.equalize_nodes,
            },
            LayoutMode::Bsp => LayoutSystemKind::Bsp {
                insertion_point: settings.window_insertion_point_for(mode),
            },
            LayoutMode::Stack => LayoutSystemKind::Stack {
                orientation: settings.stack.default_orientation,
                insertion_point: settings.window_insertion_point_for(mode),
            },
            LayoutMode::MasterStack => {
                let mut mode_settings: MasterStackSettings = settings.master_stack;
                mode_settings.base = settings.resolved_base_for(mode);
                LayoutSystemKind::MasterStack { master_settings: mode_settings }
            },
            LayoutMode::Scrolling => {
                let mut mode_settings: ScrollingSettings = settings.scrolling;
                mode_settings.base = settings.resolved_base_for(mode);
                LayoutSystemKind::Scrolling { scrolling_settings: mode_settings }
            },
        }
    }

    pub fn set_last_focused(&mut self, window_id: Option<WindowId>)
        ensures
            *final(self) == (VirtualWorkspace { last_focused: window_id, ..*old(self) }),
    {
        self.last_focused = window_id;
    }

    pub fn last_focused(&self) -> (r: Option<WindowId>)
        ensures
            r == self.last_focused,
    {
        self.last_focused
    }
}

/// Counts over a whole store. The windows of each workspace stand under the
/// number of its identifier.
#[derive(Debug, Clone)]
pub struct WorkspaceStats {
    pub total_workspaces: usize,
    pub total_windows: usize,
    pub active_spaces: usize,
    pub workspace_window_counts: HashMap<u64, usize>,
}

} // verus!
