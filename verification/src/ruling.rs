//! App rules decide the workspace of a window.
use crate::app_rules::decided;
use crate::app_rules::AppRuleDecision;
use crate::app_rules::AppRuleEffects;
use crate::app_rules::AppRuleRejection;
use crate::app_rules::AppRuleResult;
use crate::app_rules::WindowPosition;
use crate::app_rules::WindowSize;
use crate::creation::lemma_initialized;
use crate::desktop::desktop;
use crate::desktop::Desktop;
use crate::ids::SpaceId;
use crate::ids::VirtualWorkspaceId;
use crate::ids::WindowId;
use crate::selectors::WorkspaceSelector;
use crate::store::WorkspaceStore;
use crate::windows::WindowStore;
use crate::windows::WindowWorkspaceInfo;
use crate::workspace::said;
use crate::workspace::WorkspaceError;
use vstd::prelude::*;

verus! {

impl WorkspaceStore {
    /// The workspace that a rule selects, if the space has it.
    fn select(&self, space: SpaceId, selector: &WorkspaceSelector) -> (r: Option<
        VirtualWorkspaceId,
    >)
        ensures
            r == self@.rule_selected(space, selector@),
    {
        if self.shared_across_displays() {
            // One namespace, so a rule index means the same workspace everywhere.
            let ids = self.ordered_workspace_ids_global();
            match self.pick(&ids, selector) {
                // A rule can name a workspace owned by another display, but the window is
                // already on this one and assigning it across spaces here would leave it
                // parked offscreen on a display it was never moved to. Falls back to this
                // display.
                Some(id) => if self.is_owned(space, id) {
                    Some(id)
                } else {
                    None
                },
                None => None,
            }
        } else {
            let ids = self.ordered_workspace_ids(space);
            proof {
                crate::order::lemma_sorted(self@.list_of(space).filter(self@.owned_by(space)));
                crate::sequences::lemma_filter(self@.list_of(space), self@.owned_by(space));
            }
            self.pick(&ids, selector)
        }
    }

    pub fn resolve_rule_workspace_with_policy(
        &mut self,
        space: SpaceId,
        selector: Option<&WorkspaceSelector>,
        existing: Option<WindowWorkspaceInfo>,
        preserve_existing: bool,
    ) -> (r: Result<VirtualWorkspaceId, WorkspaceError>)
        requires
            old(self)@.resolution_initializes(
                space,
                match selector {
                    Some(selector) => Some(selector@),
                    None => None,
                },
                match existing {
                    Some(info) => Some(info.workspace_id),
                    None => None,
                },
                preserve_existing,
            ) ==> old(self)@.can_initialize(space),
        ensures
            (final(self)@, said(r)) == old(self)@.rule_resolution(
                space,
                match selector {
                    Some(selector) => Some(selector@),
                    None => None,
                },
                match existing {
                    Some(info) => Some(info.workspace_id),
                    None => None,
                },
                preserve_existing,
            ),
    {
        let selected = match selector {
            Some(selector) => {
                if !self.shared_across_displays() {
                    proof {
                        lemma_initialized(self@, space);
                    }
                    self.ensure_space_initialized(space);
                }
                self.select(space, selector)
            },
            None => None,
        };
        let had = match existing {
            Some(info) => Some(info.workspace_id),
            None => None,
        };
        let preferred = if had.is_some() && (preserve_existing || selected.is_none()) {
            had
        } else {
            selected
        };
        match preferred {
            Some(id) => Ok(id),
            None => self.get_default_workspace(space),
        }
    }

    pub fn apply_app_rule_decision(
        &mut self,
        window_store: &mut WindowStore,
        window_id: WindowId,
        space: SpaceId,
        rule_decision: Option<AppRuleDecision>,
    ) -> (r: Result<AppRuleResult, WorkspaceError>)
        requires
            old(self)@.can_initialize(space),
        ensures
            (desktop(*final(self), *final(window_store)), said(r)) == (Desktop {
                store: old(self)@.initialized(space),
                windows: old(window_store)@,
            }).ruling(window_id, space, decided(rule_decision), false),
    {
        self.apply_app_rule_decision_with_policy(
            window_store,
            window_id,
            space,
            rule_decision,
            false,
        )
    }

    pub fn apply_app_rule_decision_preserving_workspace(
        &mut self,
        window_store: &mut WindowStore,
        window_id: WindowId,
        space: SpaceId,
        rule_decision: Option<AppRuleDecision>,
    ) -> (r: Result<AppRuleResult, WorkspaceError>)
        requires
            old(self)@.can_initialize(space),
        ensures
            (desktop(*final(self), *final(window_store)), said(r)) == (Desktop {
                store: old(self)@.initialized(space),
                windows: old(window_store)@,
            }).ruling(window_id, space, decided(rule_decision), true),
    {
        self.apply_app_rule_decision_with_policy(window_store, window_id, space, rule_decision, true)
    }

    /// The assignment of a window, if it is on the space.
    fn preserved_workspace_assignment(
        &self,
        window_store: &WindowStore,
        window_id: WindowId,
        space: SpaceId,
    ) -> (r: Option<WindowWorkspaceInfo>)
        ensures
            r == match window_store@.info_of(window_id) {
                Some(info) if info.space == space => Some(info),
                _ => None,
            },
    {
        match window_store.workspace_info_for_window(window_id) {
            Some(info) => if info.space == space {
                Some(info)
            } else {
                None
            },
            None => None,
        }
    }

    /// Assigns a window, unless it is assigned so already.
    fn ensure_window_assignment(
        &mut self,
        window_store: &mut WindowStore,
        window_id: WindowId,
        assignment: WindowWorkspaceInfo,
    ) -> (r: bool)
        ensures
            r == (old(window_store)@.info_of(window_id) == Some(assignment) || old(self)@.owns(
                assignment.space,
                assignment.workspace_id,
            )),
            desktop(*final(self), *final(window_store)) == if old(window_store)@.info_of(window_id)
                == Some(assignment) {
                desktop(*old(self), *old(window_store))
            } else {
                desktop(*old(self), *old(window_store)).assigned(
                    assignment.space,
                    window_id,
                    assignment.workspace_id,
                )
            },
    {
        if let Some(info) = window_store.workspace_info_for_window(window_id) {
            if info == assignment {
                return true;
            }
        }
        self.assign_window_to_workspace(
            window_store,
            assignment.space,
            window_id,
            assignment.workspace_id,
        )
    }

    fn apply_app_rule_decision_with_policy(
        &mut self,
        window_store: &mut WindowStore,
        window_id: WindowId,
        space: SpaceId,
        rule_decision: Option<AppRuleDecision>,
        preserve_existing: bool,
    ) -> (r: Result<AppRuleResult, WorkspaceError>)
        requires
            old(self)@.can_initialize(space),
        ensures
            (desktop(*final(self), *final(window_store)), said(r)) == (Desktop {
                store: old(self)@.initialized(space),
                windows: old(window_store)@,
            }).ruling(window_id, space, decided(rule_decision), preserve_existing),
    {
        proof {
            lemma_initialized(self@, space);
        }
        self.ensure_space_initialized(space);
        let ghost start = desktop(*self, *window_store);
        if self.list_len(space) == 0 {
            return Err(WorkspaceError::NoWorkspacesAvailable);
        }
        let existing_assignment = self.preserved_workspace_assignment(
            window_store,
            window_id,
            space,
        );
        let rule_override = match &rule_decision {
            Some(decision) => decision.management_override(),
            None => None,
        };
        let admission = match window_store.record(window_id) {
            Some(record) => record.is_admitted_with_rule_override(rule_override),
            None => None,
        };
        let ruled_out = match rule_override {
            Some(manage) => !manage,
            None => false,
        };
        // Assignment tests and restore paths may not yet have an AX
        // snapshot. In that case only an explicit rejection can deny it.
        let admitted = match admission {
            Some(admitted) => admitted,
            None => !ruled_out,
        };
        window_store.set_manage_override(window_id, rule_override);
        let ghost noted = Desktop {
            windows: start.windows.overridden(window_id, rule_override),
            ..start
        };
        assert(desktop(*self, *window_store) == noted);
        assert(admitted == start.windows.admits(window_id, rule_override));
        if !admitted {
            window_store.clear_rule_floating(window_id);
            return Ok(
                AppRuleResult::Rejected(
                    if ruled_out {
                        AppRuleRejection::ExplicitRule
                    } else {
                        AppRuleRejection::Heuristic
                    },
                ),
            );
        }
        let ghost decision = decided(rule_decision);
        let (workspace, floating, position, size, focus): (
            Option<WorkspaceSelector>,
            bool,
            Option<WindowPosition>,
            Option<WindowSize>,
            bool,
        ) = match rule_decision {
            Some(decision) => (
                decision.workspace,
                decision.floating,
                decision.position,
                decision.size,
                decision.focus,
            ),
            None => (None, false, None, None, false),
        };
        let ghost had = match existing_assignment {
            Some(info) => Some(info.workspace_id),
            None => None,
        };
        let ghost resolution = start.store.rule_resolution(
            space,
            decision.workspace,
            had,
            preserve_existing,
        );
        let resolved = self.resolve_rule_workspace_with_policy(
            space,
            workspace.as_ref(),
            existing_assignment,
            preserve_existing,
        );
        let ghost chosen = Desktop { store: resolution.0, ..noted };
        assert(desktop(*self, *window_store) == chosen);
        assert(said(resolved) == resolution.1);
        let workspace_id = match resolved {
            Ok(id) => id,
            Err(error) => {
                return Err(error);
            },
        };
        if !self.ensure_window_assignment(
            window_store,
            window_id,
            WindowWorkspaceInfo { space, workspace_id },
        ) {
            return Err(WorkspaceError::AssignmentFailed);
        }
        let ghost placed = if had == Some(workspace_id) {
            chosen
        } else {
            chosen.assigned(space, window_id, workspace_id)
        };
        assert(desktop(*self, *window_store) == placed);
        assert(placed.windows.rule_floating == start.windows.rule_floating);
        let was_rule_floating = window_store.replace_rule_floating(window_id, floating);
        Ok(
            AppRuleResult::Managed(
                AppRuleEffects {
                    workspace_id,
                    floating,
                    position,
                    size,
                    focus,
                    was_rule_floating,
                },
            ),
        )
    }
}

} // verus!
