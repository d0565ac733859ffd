//! The windows and the workspaces that they are assigned to.
use crate::ids::SpaceId;
use crate::ids::VirtualWorkspaceId;
use crate::ids::WindowId;
use crate::roster::lemma_keep_by_steps;
use crate::roster::unless_among;
use crate::roster::Roster;
use crate::roster::RosterState;
use crate::sequences::lemma_filter;
use crate::sequences::lemma_filter_take;
use crate::sequences::lemma_push_contains;
use vstd::prelude::*;

verus! {

/// The workspace of a window, together with the space that shows it.
#[derive(Clone, Copy, PartialEq, Eq, Structural, Debug)]
pub struct WindowWorkspaceInfo {
    pub space: SpaceId,
    pub workspace_id: VirtualWorkspaceId,
}

/// What is known of a window itself.
#[derive(Clone, Copy, PartialEq, Eq, Structural, Debug)]
pub struct WindowRecord {
    /// Whether the window looks like one to manage, once it has been seen.
    pub manageable: Option<bool>,
    /// What the app rules said about managing it.
    pub manage_override: Option<bool>,
}

impl WindowRecord {
    /// Whether the window is admitted: as a rule says, or else as it looks.
    pub open spec fn admission(self, rule_override: Option<bool>) -> Option<bool> {
        match (self.manageable, rule_override) {
            (Some(_), Some(ruled)) => Some(ruled),
            (looks, _) => looks,
        }
    }

    pub fn is_admitted_with_rule_override(&self, rule_override: Option<bool>) -> (r: Option<bool>)
        ensures
            r == self.admission(rule_override),
    {
        match (self.manageable, rule_override) {
            (Some(_), Some(ruled)) => Some(ruled),
            (looks, _) => looks,
        }
    }
}

/// Owns which window belongs to which workspace, and what the app rules said
/// about windows.
#[derive(Debug)]
pub struct WindowStore {
    assignments: Roster<WindowWorkspaceInfo>,
    rule_floating: Roster<()>,
    records: Roster<WindowRecord>,
}

/// What a [`WindowStore`] holds.
#[verifier::ext_equal]
pub struct WindowState {
    pub assignments: RosterState<WindowWorkspaceInfo>,
    pub rule_floating: Set<WindowId>,
    pub records: Map<WindowId, WindowRecord>,
}

impl View for WindowStore {
    type V = WindowState;

    closed spec fn view(&self) -> WindowState {
        WindowState {
            assignments: self.assignments@,
            rule_floating: self.rule_floating@.values.dom(),
            records: self.records@.values,
        }
    }
}

/// Accepts the given workspaces.
pub open spec fn among(ids: Seq<VirtualWorkspaceId>) -> spec_fn(VirtualWorkspaceId) -> bool {
    |id: VirtualWorkspaceId| ids.contains(id)
}

/// Accepts the windows of other apps.
pub open spec fn not_of_app(pid: i32) -> spec_fn(WindowId) -> bool {
    |window: WindowId| window.pid != pid
}

impl WindowState {
    pub open spec fn empty() -> Self {
        WindowState {
            assignments: RosterState::empty(),
            rule_floating: Set::empty(),
            records: Map::empty(),
        }
    }

    pub open spec fn info_of(self, window: WindowId) -> Option<WindowWorkspaceInfo> {
        self.assignments.get(window)
    }

    /// Accepts the windows with the given assignment.
    pub open spec fn assigned_as(self, info: WindowWorkspaceInfo) -> spec_fn(WindowId) -> bool {
        |window: WindowId| self.info_of(window) == Some(info)
    }

    /// The windows of a workspace on a space, in the order in which they were
    /// first assigned.
    pub open spec fn windows_in(self, space: SpaceId, workspace_id: VirtualWorkspaceId) -> Seq<
        WindowId,
    > {
        self.assignments.order.filter(
            self.assigned_as(WindowWorkspaceInfo { space, workspace_id }),
        )
    }

    pub open spec fn assigned(self, window: WindowId, info: WindowWorkspaceInfo) -> Self {
        WindowState { assignments: self.assignments.put(window, info), ..self }
    }

    pub open spec fn unassigned(self, window: WindowId) -> Self {
        WindowState { assignments: self.assignments.remove(window), ..self }
    }

    /// Every assignment as `f` changes it.
    pub open spec fn reassigned(
        self,
        f: spec_fn(WindowWorkspaceInfo) -> WindowWorkspaceInfo,
    ) -> Self {
        WindowState {
            assignments: RosterState {
                order: self.assignments.order,
                values: self.assignments.values.map_values(f),
            },
            ..self
        }
    }

    /// All windows with one assignment get another.
    pub open spec fn moved(self, from: WindowWorkspaceInfo, to: WindowWorkspaceInfo) -> Self {
        self.reassigned(
            |info: WindowWorkspaceInfo|
                if info == from {
                    to
                } else {
                    info
                },
        )
    }

    /// All windows of one space are on another instead.
    pub open spec fn on_other_space(self, old_space: SpaceId, new_space: SpaceId) -> Self {
        self.reassigned(
            |info: WindowWorkspaceInfo|
                if info.space == old_space {
                    WindowWorkspaceInfo { space: new_space, ..info }
                } else {
                    info
                },
        )
    }

    /// Accepts the windows whose workspace is none of certain ones.
    pub open spec fn assigned_outside(self, lost: spec_fn(VirtualWorkspaceId) -> bool) -> spec_fn(
        WindowId,
    ) -> bool {
        |window: WindowId| !lost(self.assignments.values[window].workspace_id)
    }

    /// Without the assignments to certain workspaces.
    pub open spec fn dropped(self, lost: spec_fn(VirtualWorkspaceId) -> bool) -> Self {
        WindowState { assignments: self.assignments.keep(self.assigned_outside(lost)), ..self }
    }

    /// The app's windows without assignment and without what the rules said
    /// about those that had one.
    pub open spec fn without_app(self, pid: i32) -> Self {
        WindowState {
            assignments: self.assignments.keep(not_of_app(pid)),
            rule_floating: self.rule_floating.filter(
                |window: WindowId|
                    !(self.assignments.values.contains_key(window) && window.pid == pid),
            ),
            records: self.records.map_entries(
                |window: WindowId, record: WindowRecord|
                    if self.assignments.values.contains_key(window) && window.pid == pid {
                        WindowRecord { manage_override: None, ..record }
                    } else {
                        record
                    },
            ),
        }
    }

    pub open spec fn floating(self, window: WindowId, floats: bool) -> Self {
        WindowState {
            rule_floating: if floats {
                self.rule_floating.insert(window)
            } else {
                self.rule_floating.remove(window)
            },
            ..self
        }
    }

    /// A known window with the given word of the rules on managing it.
    pub open spec fn overridden(self, window: WindowId, manage_override: Option<bool>) -> Self {
        WindowState {
            records: if self.records.contains_key(window) {
                self.records.insert(
                    window,
                    WindowRecord { manage_override, ..self.records[window] },
                )
            } else {
                self.records
            },
            ..self
        }
    }

    /// All that the rules said about a window forgotten.
    pub open spec fn unruled(self, window: WindowId) -> Self {
        self.floating(window, false).overridden(window, None)
    }
}

impl Default for WindowStore {
    fn default() -> (r: Self)
        ensures
            r@ == WindowState::empty(),
    {
        let store = WindowStore {
            assignments: Roster::new(),
            rule_floating: Roster::new(),
            records: Roster::new(),
        };
        assert(store@ =~= WindowState::empty());
        store
    }
}

impl WindowStore {
    /// Every window stands in the order of assignments once.
    pub fn workspace_assignments(&self) -> (r: Vec<(WindowId, WindowWorkspaceInfo)>)
        ensures
            r@ == self@.assignments.pairs(),
            self@.assignments.well_formed(),
    {
        self.assignments.pairs()
    }

    pub fn workspace_info_for_window(&self, window: WindowId) -> (r: Option<WindowWorkspaceInfo>)
        ensures
            r == self@.info_of(window),
            self@.assignments.well_formed(),
    {
        self.assignments.get(window)
    }

    pub fn workspace_for_window(&self, space: SpaceId, window: WindowId) -> (r: Option<
        VirtualWorkspaceId,
    >)
        ensures
            r == match self@.info_of(window) {
                Some(info) if info.space == space => Some(info.workspace_id),
                _ => None,
            },
    {
        match self.assignments.get(window) {
            Some(info) => if info.space == space {
                Some(info.workspace_id)
            } else {
                None
            },
            None => None,
        }
    }

    pub fn workspaces_for_window(&self, window: WindowId) -> (r: Vec<VirtualWorkspaceId>)
        ensures
            r@ == match self@.info_of(window) {
                Some(info) => seq![info.workspace_id],
                None => Seq::empty(),
            },
    {
        let mut workspaces: Vec<VirtualWorkspaceId> = Vec::new();
        if let Some(info) = self.assignments.get(window) {
            workspaces.push(info.workspace_id);
            assert(workspaces@ =~= seq![info.workspace_id]);
        }
        workspaces
    }

    pub fn workspace_windows(&self, space: SpaceId, workspace_id: VirtualWorkspaceId) -> (r: Vec<
        WindowId,
    >)
        ensures
            r@ == self@.windows_in(space, workspace_id),
            self@.assignments.well_formed(),
    {
        let pairs = self.assignments.pairs();
        let info = WindowWorkspaceInfo { space, workspace_id };
        let ghost order = self@.assignments.order;
        let ghost wanted = self@.assigned_as(info);
        let mut windows: Vec<WindowId> = Vec::new();
        let mut i: usize = 0;
        while i < pairs.len()
            invariant
                i <= pairs.len(),
                pairs@ == self@.assignments.pairs(),
                pairs.len() == order.len(),
                order == self@.assignments.order,
                self@.assignments.well_formed(),
                wanted == self@.assigned_as(info),
                windows@ == order.take(i as int).filter(wanted),
            decreases pairs.len() - i,
        {
            proof {
                lemma_filter_take(order, wanted, i as int);
                assert(pairs@[i as int].0 == order[i as int]);
                assert(order.to_set().contains(order[i as int]));
            }
            if pairs[i].1 == info {
                windows.push(pairs[i].0);
            }
            i += 1;
        }
        assert(order.take(order.len() as int) =~= order);
        windows
    }

    pub fn workspace_window_count(&self, space: SpaceId, workspace_id: VirtualWorkspaceId) -> (r:
        usize)
        ensures
            r == self@.windows_in(space, workspace_id).len(),
    {
        self.workspace_windows(space, workspace_id).len()
    }

    pub fn workspace_assignment_count(&self) -> (r: usize)
        ensures
            r == self@.assignments.order.len(),
    {
        self.assignments.len()
    }

    pub fn assign_window_to_workspace(&mut self, window: WindowId, info: WindowWorkspaceInfo)
        ensures
            final(self)@ == old(self)@.assigned(window, info),
            final(self)@.assignments.well_formed(),
    {
        self.assignments.put(window, info);
    }

    pub fn remove_window_assignment(&mut self, window: WindowId) -> (r: Option<WindowWorkspaceInfo>)
        ensures
            r == old(self)@.info_of(window),
            final(self)@ == old(self)@.unassigned(window),
            final(self)@.assignments.well_formed(),
    {
        self.assignments.remove(window)
    }

    /// Gives all windows with one assignment another.
    pub fn move_assignments(&mut self, from: WindowWorkspaceInfo, to: WindowWorkspaceInfo)
        ensures
            final(self)@ == old(self)@.moved(from, to),
            final(self)@.assignments.well_formed(),
    {
        let windows = self.workspace_windows(from.space, from.workspace_id);
        let ghost before = self@;
        proof {
            lemma_filter(before.assignments.order, before.assigned_as(from));
        }
        let mut i: usize = 0;
        while i < windows.len()
            invariant
                i <= windows.len(),
                self@.assignments.well_formed(),
                self@.assignments.order == before.assignments.order,
                self@.assignments.values.dom() == before.assignments.values.dom(),
                self@.rule_floating == before.rule_floating,
                self@.records == before.records,
                before.assignments.well_formed(),
                forall|w: WindowId| #[trigger]
                    windows@.contains(w) <==> before.assignments.order.contains(w)
                        && before.info_of(w) == Some(from),
                forall|w: WindowId| #[trigger]
                    before.assignments.values.contains_key(w) ==> self@.assignments.values[w] == (
                    if windows@.take(i as int).contains(w) {
                        to
                    } else {
                        before.assignments.values[w]
                    }),
            decreases windows.len() - i,
        {
            let window = windows[i];
            proof {
                assert(windows@.contains(window));
                assert(before.assignments.values.contains_key(window));
                assert(windows@.take(i + 1) =~= windows@.take(i as int).push(window));
                assert forall|w: WindowId| windows@.take(i + 1).contains(w) <==> windows@.take(
                    i as int,
                ).contains(w) || w == window by {
                    lemma_push_contains(windows@.take(i as int), window, w);
                }
            }
            self.assign_window_to_workspace(window, to);
            i += 1;
        }
        proof {
            assert(windows@.take(windows.len() as int) =~= windows@);
            let after = before.moved(from, to);
            assert forall|w: WindowId| after.assignments.values.contains_key(w) implies #[trigger]
            self@.assignments.values[w] == after.assignments.values[w] by {
                assert(before.assignments.values.contains_key(w));
                assert(before.assignments.order.to_set().contains(w));
            }
            assert(self@ =~= after);
        }
    }

    /// Moves every window of one space to another.
    pub fn remap_space(&mut self, old_space: SpaceId, new_space: SpaceId)
        ensures
            final(self)@ == old(self)@.on_other_space(old_space, new_space),
            final(self)@.assignments.well_formed(),
    {
        let pairs = self.assignments.pairs();
        let ghost before = self@;
        let mut i: usize = 0;
        while i < pairs.len()
            invariant
                i <= pairs.len(),
                pairs@ == before.assignments.pairs(),
                before.assignments.well_formed(),
                self@.assignments.well_formed(),
                self@.assignments.order == before.assignments.order,
                self@.assignments.values.dom() == before.assignments.values.dom(),
                self@.rule_floating == before.rule_floating,
                self@.records == before.records,
                forall|k: int|
                    0 <= k < i ==> self@.assignments.values[#[trigger] before.assignments.order[k]]
                        == before.on_other_space(
                        old_space,
                        new_space,
                    ).assignments.values[before.assignments.order[k]],
                forall|k: int|
                    i <= k < pairs.len()
                        ==> self@.assignments.values[#[trigger] before.assignments.order[k]]
                        == before.assignments.values[before.assignments.order[k]],
            decreases pairs.len() - i,
        {
            let (window, info) = pairs[i];
            proof {
                assert(before.assignments.order.to_set().contains(
                    before.assignments.order[i as int],
                ));
            }
            if info.space == old_space {
                self.assign_window_to_workspace(
                    window,
                    WindowWorkspaceInfo { space: new_space, workspace_id: info.workspace_id },
                );
            }
            i += 1;
        }
        proof {
            let after = before.on_other_space(old_space, new_space);
            assert forall|w: WindowId| after.assignments.values.contains_key(w) implies #[trigger]
            self@.assignments.values[w] == after.assignments.values[w] by {
                assert(before.assignments.order.to_set().contains(w));
                let k = before.assignments.order.index_of(w);
                assert(before.assignments.order[k] == w);
            }
            assert(self@ =~= after);
        }
    }

    /// Takes back the assignments to the given workspaces.
    pub fn drop_assignments(&mut self, lost: &Vec<VirtualWorkspaceId>)
        ensures
            final(self)@ == old(self)@.dropped(among(lost@)),
            final(self)@.assignments.well_formed(),
    {
        let pairs = self.assignments.pairs();
        let ghost before = self@;
        let ghost wanted = before.assigned_outside(among(lost@));
        proof {
            lemma_keep_by_steps(before.assignments, wanted, 0);
        }
        let mut i: usize = 0;
        while i < pairs.len()
            invariant
                i <= pairs.len(),
                pairs@ == before.assignments.pairs(),
                before.assignments.well_formed(),
                wanted == before.assigned_outside(among(lost@)),
                self@ == (WindowState {
                    assignments: before.assignments.keep(
                        unless_among(before.assignments.order, i as int, wanted),
                    ),
                    ..before
                }),
                self@.assignments.well_formed(),
            decreases pairs.len() - i,
        {
            let (window, info) = pairs[i];
            proof {
                lemma_keep_by_steps(before.assignments, wanted, i as int);
                assert(before.assignments.order.to_set().contains(
                    before.assignments.order[i as int],
                ));
            }
            let mut k: usize = 0;
            let mut found = false;
            while k < lost.len() && !found
                invariant
                    k <= lost.len(),
                    found ==> lost@.contains(info.workspace_id),
                    !found ==> forall|j: int| 0 <= j < k ==> lost@[j] != info.workspace_id,
                decreases lost.len() - k,
            {
                if lost[k] == info.workspace_id {
                    found = true;
                }
                k += 1;
            }
            if found {
                let _ = self.remove_window_assignment(window);
            }
            i += 1;
        }
        proof {
            lemma_keep_by_steps(before.assignments, wanted, 0);
        }
    }

    /// Takes back the assignments of an app's windows, and forgets what the
    /// rules said about them.
    pub fn remove_app(&mut self, pid: i32)
        ensures
            final(self)@ == old(self)@.without_app(pid),
            final(self)@.assignments.well_formed(),
    {
        let pairs = self.assignments.pairs();
        let ghost before = self@;
        let ghost wanted = not_of_app(pid);
        let ghost order = before.assignments.order;
        proof {
            lemma_keep_by_steps(before.assignments, wanted, 0);
            assert(order.take(0) =~= Seq::empty());
        }
        let mut i: usize = 0;
        while i < pairs.len()
            invariant
                i <= pairs.len(),
                pairs@ == before.assignments.pairs(),
                before.assignments.well_formed(),
                order == before.assignments.order,
                wanted == not_of_app(pid),
                self@.assignments == before.assignments.keep(
                    unless_among(order, i as int, wanted),
                ),
                self@.assignments.well_formed(),
                forall|w: WindowId| #[trigger]
                    self@.rule_floating.contains(w) <==> before.rule_floating.contains(w) && !(
                    order.take(i as int).contains(w) && w.pid == pid),
                self@.records.dom() == before.records.dom(),
                forall|w: WindowId| #[trigger]
                    before.records.contains_key(w) ==> self@.records[w] == if order.take(
                        i as int,
                    ).contains(w) && w.pid == pid {
                        WindowRecord { manage_override: None, ..before.records[w] }
                    } else {
                        before.records[w]
                    },
            decreases pairs.len() - i,
        {
            let (window, _) = pairs[i];
            proof {
                lemma_keep_by_steps(before.assignments, wanted, i as int);
                assert(order.take(i + 1) =~= order.take(i as int).push(window));
                assert forall|w: WindowId| #[trigger]
                    order.take(i + 1).contains(w) <==> order.take(i as int).contains(w) || w
                        == window by {
                    lemma_push_contains(order.take(i as int), window, w);
                }
            }
            if window.pid == pid {
                let _ = self.remove_window_assignment(window);
                self.clear_rule_metadata(window);
            }
            assert(self@.records.dom() =~= before.records.dom());
            i += 1;
        }
        proof {
            lemma_keep_by_steps(before.assignments, wanted, 0);
            assert(order.take(order.len() as int) =~= order);
            assert forall|w: WindowId| order.contains(w)
                <==> before.assignments.values.contains_key(w) by {
                assert(order.to_set().contains(w) <==> order.contains(w));
            }
            assert(self@ =~= before.without_app(pid));
        }
    }

    pub fn record(&self, window: WindowId) -> (r: Option<WindowRecord>)
        ensures
            r == if self@.records.contains_key(window) {
                Some(self@.records[window])
            } else {
                None
            },
    {
        self.records.get(window)
    }

    /// Makes a window known, or replaces what is known of it.
    pub fn insert_record(&mut self, window: WindowId, record: WindowRecord)
        ensures
            final(self)@ == (WindowState {
                records: old(self)@.records.insert(window, record),
                ..old(self)@
            }),
    {
        self.records.put(window, record);
    }

    /// Notes what the rules say about managing a known window.
    pub fn set_manage_override(&mut self, window: WindowId, manage_override: Option<bool>)
        ensures
            final(self)@ == old(self)@.overridden(window, manage_override),
    {
        if let Some(record) = self.records.get(window) {
            self.records.put(
                window,
                WindowRecord { manageable: record.manageable, manage_override },
            );
        }
    }

    pub fn is_rule_floating(&self, window: WindowId) -> (r: bool)
        ensures
            r == self@.rule_floating.contains(window),
    {
        self.rule_floating.get(window).is_some()
    }

    pub fn clear_rule_floating(&mut self, window: WindowId)
        ensures
            final(self)@ == old(self)@.floating(window, false),
    {
        let _ = self.rule_floating.remove(window);
        assert(self@.rule_floating =~= old(self)@.rule_floating.remove(window));
    }

    /// Sets whether the rules float a window, and returns whether they did.
    pub fn replace_rule_floating(&mut self, window: WindowId, floats: bool) -> (r: bool)
        ensures
            r == old(self)@.rule_floating.contains(window),
            final(self)@ == old(self)@.floating(window, floats),
    {
        let floated = self.is_rule_floating(window);
        if floats {
            self.rule_floating.put(window, ());
            assert(self@.rule_floating =~= old(self)@.rule_floating.insert(window));
        } else {
            self.clear_rule_floating(window);
        }
        floated
    }

    /// Forgets what the rules said about a window.
    pub fn clear_rule_metadata(&mut self, window: WindowId)
        ensures
            final(self)@ == old(self)@.unruled(window),
    {
        self.clear_rule_floating(window);
        self.set_manage_override(window, None);
    }
}

} // verus!
