//! What app rules decide about a window, and what comes of it.
use crate::ids::VirtualWorkspaceId;
use crate::selectors::Selection;
use crate::selectors::WorkspaceSelector;
use vstd::prelude::*;

verus! {

/// Where a rule puts a window, in points.
#[derive(Clone, Copy, PartialEq, Eq, Structural, Debug)]
pub struct WindowPosition {
    pub x: i32,
    pub y: i32,
}

/// How large a rule makes a window, in points.
#[derive(Clone, Copy, PartialEq, Eq, Structural, Debug)]
pub struct WindowSize {
    pub width: u32,
    pub height: u32,
}

/// What the rules that match a window say about it.
#[derive(PartialEq, Eq, Debug)]
pub struct AppRuleDecision {
    pub workspace: Option<WorkspaceSelector>,
    pub floating: bool,
    pub position: Option<WindowPosition>,
    pub size: Option<WindowSize>,
    pub focus: bool,
    pub manage: Option<bool>,
}

/// What an [`AppRuleDecision`] says.
pub struct RuleDecision {
    pub workspace: Option<Selection>,
    pub floating: bool,
    pub position: Option<WindowPosition>,
    pub size: Option<WindowSize>,
    pub focus: bool,
    pub manage: Option<bool>,
}

impl View for AppRuleDecision {
    type V = RuleDecision;

    open spec fn view(&self) -> RuleDecision {
        RuleDecision {
            workspace: match self.workspace {
                Some(selector) => Some(selector@),
                None => None,
            },
            floating: self.floating,
            position: self.position,
            size: self.size,
            focus: self.focus,
            manage: self.manage,
        }
    }
}

impl RuleDecision {
    /// What is decided of a window that no rule matches.
    pub open spec fn none() -> Self {
        RuleDecision {
            workspace: None,
            floating: false,
            position: None,
            size: None,
            focus: false,
            manage: None,
        }
    }
}

/// What is decided of a window, whether or not a rule matches it.
pub open spec fn decided(decision: Option<AppRuleDecision>) -> RuleDecision {
    match decision {
        Some(decision) => decision@,
        None => RuleDecision::none(),
    }
}

impl AppRuleDecision {
    /// What the rules say about managing the window.
    pub fn management_override(&self) -> (r: Option<bool>)
        ensures
            r == self.manage,
    {
        self.manage
    }
}

/// Why a window is not managed.
#[derive(Clone, Copy, PartialEq, Eq, Structural, Debug)]
pub enum AppRuleRejection {
    /// A rule says so.
    ExplicitRule,
    /// It does not look like a window to manage.
    Heuristic,
}

/// What a managed window gets.
#[derive(Clone, Copy, PartialEq, Eq, Structural, Debug)]
pub struct AppRuleEffects {
    pub workspace_id: VirtualWorkspaceId,
    pub floating: bool,
    pub position: Option<WindowPosition>,
    pub size: Option<WindowSize>,
    pub focus: bool,
    /// The rules floated the window before.
    pub was_rule_floating: bool,
}

#[derive(Clone, Copy, PartialEq, Eq, Structural, Debug)]
pub enum AppRuleResult {
    Managed(AppRuleEffects),
    Rejected(AppRuleRejection),
}

} // verus!
